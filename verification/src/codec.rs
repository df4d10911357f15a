//! The wire codec: each envelope travels as one self-describing structured
//! document in UTF-8 text, with named fields.
//!
//! A request document has the shape
//! `{"request_id":"...","command":"...","data":<application document>}`,
//! a response document the shape
//! `{"request_id":"...","success":true|false,"error":"..."|null,"data":<application document>|null}`.
//! The two string fields are escaped; the application data is embedded
//! verbatim as the last field, so the decoder recovers it positionally
//! without interpreting it. The decoders accept exactly the canonical form
//! the encoders write: fields in this order, no whitespace between them.

use crate::envelope::SocketPayload;
use crate::envelope::SocketResponse;
use vstd::prelude::*;

verus! {

// ---------------------------------------------------------------------------
// String escaping
// ---------------------------------------------------------------------------

/// The hexadecimal digit for a value below 16.
pub open spec fn hex_digit(n: int) -> char {
    if n == 0 {
        '0'
    } else if n == 1 {
        '1'
    } else if n == 2 {
        '2'
    } else if n == 3 {
        '3'
    } else if n == 4 {
        '4'
    } else if n == 5 {
        '5'
    } else if n == 6 {
        '6'
    } else if n == 7 {
        '7'
    } else if n == 8 {
        '8'
    } else if n == 9 {
        '9'
    } else if n == 10 {
        'a'
    } else if n == 11 {
        'b'
    } else if n == 12 {
        'c'
    } else if n == 13 {
        'd'
    } else if n == 14 {
        'e'
    } else if n == 15 {
        'f'
    } else {
        '0'
    }
}

/// The value of a hexadecimal digit, if the character is one.
pub open spec fn hex_val(c: char) -> Option<int> {
    if c == '0' {
        Some(0int)
    } else if c == '1' {
        Some(1int)
    } else if c == '2' {
        Some(2int)
    } else if c == '3' {
        Some(3int)
    } else if c == '4' {
        Some(4int)
    } else if c == '5' {
        Some(5int)
    } else if c == '6' {
        Some(6int)
    } else if c == '7' {
        Some(7int)
    } else if c == '8' {
        Some(8int)
    } else if c == '9' {
        Some(9int)
    } else if c == 'a' || c == 'A' {
        Some(10int)
    } else if c == 'b' || c == 'B' {
        Some(11int)
    } else if c == 'c' || c == 'C' {
        Some(12int)
    } else if c == 'd' || c == 'D' {
        Some(13int)
    } else if c == 'e' || c == 'E' {
        Some(14int)
    } else if c == 'f' || c == 'F' {
        Some(15int)
    } else {
        None
    }
}

/// How one character is written inside a quoted string: quote and backslash
/// get a backslash escape, control characters a `\u00XX` escape, every other
/// character stands for itself.
pub open spec fn escape_char(c: char) -> Seq<char> {
    if c == '"' {
        seq!['\\', '"']
    } else if c == '\\' {
        seq!['\\', '\\']
    } else if (c as u32) < 32 {
        seq!['\\', 'u', '0', '0', hex_digit(c as u32 as int / 16), hex_digit(c as u32 as int % 16)]
    } else {
        seq![c]
    }
}

/// The escaped form of a whole string.
pub open spec fn escape_seq(s: Seq<char>) -> Seq<char>
    decreases s.len(),
{
    if s.len() == 0 {
        Seq::empty()
    } else {
        escape_char(s[0]) + escape_seq(s.skip(1))
    }
}

/// Escaping distributes over concatenation.
pub proof fn lemma_escape_seq_add(a: Seq<char>, b: Seq<char>)
    ensures
        escape_seq(a + b) == escape_seq(a) + escape_seq(b),
    decreases a.len(),
{
    if a.len() == 0 {
        assert(a + b =~= b);
        assert(escape_seq(a) + escape_seq(b) =~= escape_seq(b));
    } else {
        assert((a + b).skip(1) =~= a.skip(1) + b);
        lemma_escape_seq_add(a.skip(1), b);
        assert(escape_char((a + b)[0]) + (escape_seq(a.skip(1)) + escape_seq(b)) =~= (escape_char(
            a[0],
        ) + escape_seq(a.skip(1))) + escape_seq(b));
    }
}

/// Extending the input by one character extends the escaped form by that
/// character's escape.
pub proof fn lemma_escape_seq_snoc(s: Seq<char>, i: int)
    requires
        0 <= i < s.len(),
    ensures
        escape_seq(s.take(i + 1)) == escape_seq(s.take(i)) + escape_char(s[i]),
{
    let one = seq![s[i]];
    assert(s.take(i + 1) =~= s.take(i) + one);
    lemma_escape_seq_add(s.take(i), one);
    assert(one.skip(1) =~= Seq::<char>::empty());
    assert(escape_seq(Seq::<char>::empty()) =~= Seq::<char>::empty());
    assert(escape_seq(one) == escape_char(one[0]) + escape_seq(one.skip(1)));
    assert(escape_seq(one) =~= escape_char(s[i]));
}

/// Relies on `String::push`: appends exactly the given character.
#[verifier::external_body]
fn push_char(s: &mut String, c: char)
    ensures
        final(s)@ == old(s)@.push(c),
{
    s.push(c)
}

/// The hexadecimal digit character for a value below 16.
fn hex_digit_exec(n: u32) -> (c: char)
    requires
        n < 16,
    ensures
        c == hex_digit(n as int),
{
    if n == 0 {
        '0'
    } else if n == 1 {
        '1'
    } else if n == 2 {
        '2'
    } else if n == 3 {
        '3'
    } else if n == 4 {
        '4'
    } else if n == 5 {
        '5'
    } else if n == 6 {
        '6'
    } else if n == 7 {
        '7'
    } else if n == 8 {
        '8'
    } else if n == 9 {
        '9'
    } else if n == 10 {
        'a'
    } else if n == 11 {
        'b'
    } else if n == 12 {
        'c'
    } else if n == 13 {
        'd'
    } else if n == 14 {
        'e'
    } else {
        'f'
    }
}

/// The value of a hexadecimal digit character, if it is one.
fn hex_val_exec(c: char) -> (r: Option<u8>)
    ensures
        match hex_val(c) {
            Some(v) => r matches Some(u) && u as int == v && 0 <= v < 16,
            None => r is None,
        },
{
    if c == '0' {
        Some(0u8)
    } else if c == '1' {
        Some(1u8)
    } else if c == '2' {
        Some(2u8)
    } else if c == '3' {
        Some(3u8)
    } else if c == '4' {
        Some(4u8)
    } else if c == '5' {
        Some(5u8)
    } else if c == '6' {
        Some(6u8)
    } else if c == '7' {
        Some(7u8)
    } else if c == '8' {
        Some(8u8)
    } else if c == '9' {
        Some(9u8)
    } else if c == 'a' || c == 'A' {
        Some(10u8)
    } else if c == 'b' || c == 'B' {
        Some(11u8)
    } else if c == 'c' || c == 'C' {
        Some(12u8)
    } else if c == 'd' || c == 'D' {
        Some(13u8)
    } else if c == 'e' || c == 'E' {
        Some(14u8)
    } else if c == 'f' || c == 'F' {
        Some(15u8)
    } else {
        None
    }
}

/// Append the escaped form of `s` to `out`.
fn append_escaped(out: &mut String, s: &str)
    ensures
        final(out)@ == old(out)@ + escape_seq(s@),
{
    let n = s.unicode_len();
    let mut i: usize = 0;
    proof {
        assert(s@.take(0) =~= Seq::<char>::empty());
        assert(old(out)@ + escape_seq(s@.take(0)) =~= old(out)@);
    }
    while i < n
        invariant
            n == s@.len(),
            i <= n,
            out@ == old(out)@ + escape_seq(s@.take(i as int)),
        decreases n - i,
    {
        let c = s.get_char(i);
        proof {
            lemma_escape_seq_snoc(s@, i as int);
        }
        if c == '"' {
            push_char(out, '\\');
            push_char(out, '"');
            proof {
                assert(out@ =~= old(out)@ + escape_seq(s@.take(i + 1)));
            }
        } else if c == '\\' {
            push_char(out, '\\');
            push_char(out, '\\');
            proof {
                assert(out@ =~= old(out)@ + escape_seq(s@.take(i + 1)));
            }
        } else {
            let cu = c as u32;
            if cu < 32 {
                push_char(out, '\\');
                push_char(out, 'u');
                push_char(out, '0');
                push_char(out, '0');
                push_char(out, hex_digit_exec(cu / 16));
                push_char(out, hex_digit_exec(cu % 16));
                proof {
                    assert(out@ =~= old(out)@ + escape_seq(s@.take(i + 1)));
                }
            } else {
                push_char(out, c);
                proof {
                    assert(out@ =~= old(out)@ + escape_seq(s@.take(i + 1)));
                }
            }
        }
        i = i + 1;
    }
    proof {
        assert(s@.take(n as int) =~= s@);
    }
}

// ---------------------------------------------------------------------------
// Scanning a quoted string
// ---------------------------------------------------------------------------

/// The escape sequence starting at the backslash at position `i`, if valid:
/// the character it stands for and the position just after the sequence.
pub open spec fn unescape_at(s: Seq<char>, i: int) -> Option<(char, int)> {
    if i + 1 >= s.len() {
        None
    } else {
        let e = s[i + 1];
        if e == '"' {
            Some(('"', i + 2))
        } else if e == '\\' {
            Some(('\\', i + 2))
        } else if e == '/' {
            Some(('/', i + 2))
        } else if e == 'n' {
            Some(('\n', i + 2))
        } else if e == 'r' {
            Some(('\r', i + 2))
        } else if e == 't' {
            Some(('\t', i + 2))
        } else if e == 'b' {
            Some(('\u{0008}', i + 2))
        } else if e == 'f' {
            Some(('\u{000c}', i + 2))
        } else if e == 'u' {
            if i + 5 >= s.len() {
                None
            } else if s[i + 2] == '0' && s[i + 3] == '0' {
                match (hex_val(s[i + 4]), hex_val(s[i + 5])) {
                    (Some(h), Some(l)) => Some((((16 * h + l) as u8) as char, i + 6)),
                    _ => None,
                }
            } else {
                None
            }
        } else {
            None
        }
    }
}

/// Scan the quoted-string body that starts at position `i`: the unescaped
/// content up to the first unescaped quote, and the position just after that
/// closing quote.
pub open spec fn scan_from(s: Seq<char>, i: int) -> Option<(Seq<char>, int)>
    decreases s.len() - i,
{
    if i < 0 || i >= s.len() {
        None
    } else if s[i] == '"' {
        Some((Seq::empty(), i + 1))
    } else if s[i] == '\\' {
        match unescape_at(s, i) {
            None => None,
            Some(cj) => {
                if cj.1 <= i || cj.1 > s.len() {
                    None
                } else {
                    match scan_from(s, cj.1) {
                        None => None,
                        Some(tk) => Some((seq![cj.0] + tk.0, tk.1)),
                    }
                }
            },
        }
    } else {
        match scan_from(s, i + 1) {
            None => None,
            Some(tk) => Some((seq![s[i]] + tk.0, tk.1)),
        }
    }
}

/// Prefix the content of a scan result.
pub open spec fn scan_prepend(pre: Seq<char>, r: Option<(Seq<char>, int)>) -> Option<
    (Seq<char>, int),
> {
    match r {
        None => None,
        Some(tk) => Some((pre + tk.0, tk.1)),
    }
}

proof fn lemma_scan_prepend_assoc(a: Seq<char>, b: Seq<char>, r: Option<(Seq<char>, int)>)
    ensures
        scan_prepend(a, scan_prepend(b, r)) == scan_prepend(a + b, r),
{
    match r {
        None => {},
        Some(tk) => {
            assert(a + (b + tk.0) =~= (a + b) + tk.0);
        },
    }
}

/// Scan the quoted-string body starting at `start`, returning the unescaped
/// content and the position just after the closing quote.
fn scan_string(s: &str, start: usize) -> (r: Option<(String, usize)>)
    requires
        start as int <= s@.len(),
    ensures
        match scan_from(s@, start as int) {
            None => r is None,
            Some(tk) => r matches Some(p) && p.0@ == tk.0 && p.1 as int == tk.1 && tk.1
                <= s@.len(),
        },
{
    let n = s.unicode_len();
    let mut acc = String::new();
    let mut i: usize = start;
    proof {
        assert(Seq::<char>::empty() + acc@ =~= acc@);
    }
    while i < n
        invariant
            n == s@.len(),
            i <= n,
            scan_from(s@, start as int) == scan_prepend(acc@, scan_from(s@, i as int)),
        decreases n - i,
    {
        let ghost pre = acc@;
        let ghost iold = i as int;
        let c = s.get_char(i);
        if c == '"' {
            proof {
                assert(scan_from(s@, iold) == Some((Seq::<char>::empty(), iold + 1)));
                assert(pre + Seq::<char>::empty() =~= pre);
            }
            return Some((acc, i + 1));
        }
        if c == '\\' {
            if i + 1 >= n {
                proof {
                    assert(unescape_at(s@, iold) is None);
                    assert(scan_from(s@, iold) is None);
                }
                return None;
            }
            let e = s.get_char(i + 1);
            let stepped: Option<(char, usize)> = if e == '"' {
                Some(('"', i + 2))
            } else if e == '\\' {
                Some(('\\', i + 2))
            } else if e == '/' {
                Some(('/', i + 2))
            } else if e == 'n' {
                Some(('\n', i + 2))
            } else if e == 'r' {
                Some(('\r', i + 2))
            } else if e == 't' {
                Some(('\t', i + 2))
            } else if e == 'b' {
                Some(('\u{0008}', i + 2))
            } else if e == 'f' {
                Some(('\u{000c}', i + 2))
            } else if e == 'u' {
                if n - i <= 5 {
                    None
                } else if s.get_char(i + 2) == '0' && s.get_char(i + 3) == '0' {
                    let h = hex_val_exec(s.get_char(i + 4));
                    let l = hex_val_exec(s.get_char(i + 5));
                    match (h, l) {
                        (Some(hv), Some(lv)) => Some(((16 * hv + lv) as char, i + 6)),
                        _ => None,
                    }
                } else {
                    None
                }
            } else {
                None
            };
            match stepped {
                None => {
                    proof {
                        assert(unescape_at(s@, iold) is None);
                        assert(scan_from(s@, iold) is None);
                    }
                    return None;
                },
                Some((c2, j)) => {
                    proof {
                        assert(unescape_at(s@, iold) == Some((c2, j as int)));
                        assert(scan_from(s@, iold) == scan_prepend(
                            seq![c2],
                            scan_from(s@, j as int),
                        ));
                        lemma_scan_prepend_assoc(pre, seq![c2], scan_from(s@, j as int));
                    }
                    push_char(&mut acc, c2);
                    proof {
                        assert(acc@ =~= pre + seq![c2]);
                    }
                    i = j;
                },
            }
        } else {
            proof {
                assert(scan_from(s@, iold) == scan_prepend(seq![c], scan_from(s@, iold + 1)));
                lemma_scan_prepend_assoc(pre, seq![c], scan_from(s@, iold + 1));
            }
            push_char(&mut acc, c);
            proof {
                assert(acc@ =~= pre + seq![c]);
            }
            i = i + 1;
        }
    }
    proof {
        assert(scan_from(s@, i as int) is None);
    }
    None
}

// ---------------------------------------------------------------------------
// Matching a fixed piece of text
// ---------------------------------------------------------------------------

/// The fixed text `lit` stands in `s` at position `i`.
pub open spec fn match_at(s: Seq<char>, i: int, lit: Seq<char>) -> bool {
    &&& 0 <= i
    &&& i + lit.len() <= s.len()
    &&& forall|k: int| 0 <= k < lit.len() ==> s[i + k] == lit[k]
}

/// Decide whether `lit` stands in `s` at position `i`.
fn match_lit(s: &str, i: usize, lit: &str) -> (b: bool)
    ensures
        b == match_at(s@, i as int, lit@),
{
    let n = s.unicode_len();
    let m = lit.unicode_len();
    if i > n || m > n - i {
        return false;
    }
    let mut j: usize = 0;
    while j < m
        invariant
            n == s@.len(),
            m == lit@.len(),
            i + m <= n,
            j <= m,
            forall|k: int| 0 <= k < j ==> s@[i + k] == lit@[k],
        decreases m - j,
    {
        if s.get_char(i + j) != lit.get_char(j) {
            proof {
                assert(s@[i as int + j as int] != lit@[j as int]);
            }
            return false;
        }
        j += 1;
    }
    true
}

// ---------------------------------------------------------------------------
// The request document
// ---------------------------------------------------------------------------

/// The opening of a request or response document, up to and including the
/// opening quote of the request identifier.
pub open spec fn lit_req() -> Seq<char> {
    "{\"request_id\":\""@
}

/// From the closing quote of the request identifier up to and including the
/// opening quote of the command, in a request document.
pub open spec fn lit_cmd() -> Seq<char> {
    ",\"command\":\""@
}

/// The lead of the data field; the application document follows verbatim.
pub open spec fn lit_data() -> Seq<char> {
    ",\"data\":"@
}

/// The text of a request document carrying the given request identifier,
/// command and application data.
pub open spec fn payload_text(rid: Seq<char>, cmd: Seq<char>, data: Seq<char>) -> Seq<char> {
    lit_req() + escape_seq(rid) + seq!['"'] + lit_cmd() + escape_seq(cmd) + seq!['"'] + lit_data()
        + data + seq!['}']
}

/// Parse a request document: its request identifier, command and application
/// data, or nothing if the text is not a valid request document.
pub open spec fn parse_payload(s: Seq<char>) -> Option<(Seq<char>, Seq<char>, Seq<char>)> {
    if !match_at(s, 0, lit_req()) {
        None
    } else {
        match scan_from(s, lit_req().len() as int) {
            None => None,
            Some(ri) => {
                if !match_at(s, ri.1, lit_cmd()) {
                    None
                } else {
                    match scan_from(s, ri.1 + lit_cmd().len()) {
                        None => None,
                        Some(cj) => {
                            if !match_at(s, cj.1, lit_data()) {
                                None
                            } else {
                                let k = cj.1 + lit_data().len();
                                if k <= s.len() - 1 && s[s.len() - 1] == '}' {
                                    Some((ri.0, cj.0, s.subrange(k, s.len() - 1)))
                                } else {
                                    None
                                }
                            }
                        },
                    }
                }
            },
        }
    }
}

/// Encode a payload as one request document.
pub fn encode_payload(p: &SocketPayload) -> (r: String)
    ensures
        r@ == payload_text(p.request_id@, p.command@, p.data@),
{
    let mut out = "{\"request_id\":\"".to_owned();
    append_escaped(&mut out, p.request_id.as_str());
    out.append("\"");
    out.append(",\"command\":\"");
    append_escaped(&mut out, p.command.as_str());
    out.append("\"");
    out.append(",\"data\":");
    out.append(p.data.as_str());
    out.append("}");
    proof {
        reveal_strlit("\"");
        reveal_strlit("}");
        assert("\""@ =~= seq!['"']);
        assert("}"@ =~= seq!['}']);
        assert(out@ =~= payload_text(p.request_id@, p.command@, p.data@));
    }
    out
}

/// Decode a request document, if the text is one.
pub fn decode_payload(s: &str) -> (r: Option<SocketPayload>)
    ensures
        match parse_payload(s@) {
            None => r is None,
            Some(t) => r matches Some(p) && p.request_id@ == t.0 && p.command@ == t.1 && p.data@
                == t.2,
        },
{
    let n = s.unicode_len();
    let lit1 = "{\"request_id\":\"";
    if !match_lit(s, 0, lit1) {
        return None;
    }
    let i0 = lit1.unicode_len();
    let (request_id, i) = match scan_string(s, i0) {
        Some(p) => p,
        None => {
            return None;
        },
    };
    let lit2 = ",\"command\":\"";
    if !match_lit(s, i, lit2) {
        return None;
    }
    let i2 = i + lit2.unicode_len();
    let (command, j) = match scan_string(s, i2) {
        Some(p) => p,
        None => {
            return None;
        },
    };
    let lit3 = ",\"data\":";
    if !match_lit(s, j, lit3) {
        return None;
    }
    let k = j + lit3.unicode_len();
    if !(k < n) {
        return None;
    }
    if s.get_char(n - 1) != '}' {
        return None;
    }
    let data = s.substring_char(k, n - 1).to_owned();
    Some(SocketPayload { request_id, command, data })
}

// ---------------------------------------------------------------------------
// Round trips
// ---------------------------------------------------------------------------

/// Reading a hexadecimal digit gives back the value it was written from.
proof fn lemma_hex_round(n: int)
    requires
        0 <= n < 16,
    ensures
        hex_val(hex_digit(n)) == Some(n),
{
}

/// A control character's code written and reread as two hexadecimal digits
/// is the same character.
proof fn lemma_control_char_code(c: char)
    requires
        (c as u32) < 32,
    ensures
        16 * ((c as u32 as int) / 16) + (c as u32 as int) % 16 == c as u32 as int,
        ((c as u32 as int) as u8) as char == c,
        0 <= (c as u32 as int) / 16 < 16,
        0 <= (c as u32 as int) % 16 < 16,
{
    let cu = c as u32 as int;
    vstd::arithmetic::div_mod::lemma_fundamental_div_mod(cu, 16);
    assert(0 <= cu < 32);
    assert((cu as u8) as int == cu);
    assert(((cu as u8) as char) as int == cu);
    assert(c as int == cu);
    assert(((cu as u8) as char) == c);
}

/// Scanning an escaped string followed by a closing quote recovers exactly
/// the original string and stops just after the quote.
pub proof fn lemma_scan_escape(s: Seq<char>, i: int, t: Seq<char>)
    requires
        0 <= i,
        i + escape_seq(t).len() < s.len(),
        forall|k: int| 0 <= k < escape_seq(t).len() ==> s[i + k] == escape_seq(t)[k],
        s[i + escape_seq(t).len()] == '"',
    ensures
        scan_from(s, i) == Some((t, i + escape_seq(t).len() + 1)),
    decreases t.len(),
{
    if t.len() == 0 {
        assert(escape_seq(t) == Seq::<char>::empty());
        assert(s[i] == '"');
        assert(scan_from(s, i) == Some((Seq::<char>::empty(), i + 1)));
        assert(t =~= Seq::<char>::empty());
    } else {
        let c = t[0];
        let t2 = t.skip(1);
        let b = escape_char(c);
        let e2 = escape_seq(t2);
        let e = escape_seq(t);
        assert(e == b + e2);
        assert forall|k: int| 0 <= k < b.len() implies s[i + k] == b[k] by {
            assert(e[k] == b[k]);
            assert(s[i + k] == e[k]);
        }
        let ib = i + b.len();
        assert forall|k: int| 0 <= k < e2.len() implies s[ib + k] == e2[k] by {
            assert(e[b.len() + k] == e2[k]);
            assert(s[i + (b.len() + k)] == e[b.len() + k]);
        }
        assert(s[ib + e2.len()] == '"');
        lemma_scan_escape(s, ib, t2);
        assert(seq![c] + t2 =~= t);
        if c == '"' {
            assert(s[i] == '\\');
            assert(s[i + 1] == '"');
            assert(unescape_at(s, i) == Some(('"', i + 2)));
            assert(scan_from(s, i) == scan_prepend(seq![c], scan_from(s, i + 2)));
        } else if c == '\\' {
            assert(s[i] == '\\');
            assert(s[i + 1] == '\\');
            assert(unescape_at(s, i) == Some(('\\', i + 2)));
            assert(scan_from(s, i) == scan_prepend(seq![c], scan_from(s, i + 2)));
        } else if (c as u32) < 32 {
            let cu = c as u32 as int;
            assert(s[i] == '\\');
            assert(s[i + 1] == 'u');
            assert(s[i + 2] == '0');
            assert(s[i + 3] == '0');
            assert(s[i + 4] == hex_digit(cu / 16));
            assert(s[i + 5] == hex_digit(cu % 16));
            lemma_control_char_code(c);
            lemma_hex_round(cu / 16);
            lemma_hex_round(cu % 16);
            assert((16 * (cu / 16) + cu % 16) as u8 == cu as u8);
            assert(((16 * (cu / 16) + cu % 16) as u8) as char == c);
            assert(unescape_at(s, i) == Some((c, i + 6)));
            assert(scan_from(s, i) == scan_prepend(seq![c], scan_from(s, i + 6)));
        } else {
            assert(s[i] == c);
            assert(scan_from(s, i) == scan_prepend(seq![c], scan_from(s, i + 1)));
        }
        assert(scan_from(s, i) == Some((seq![c] + t2, ib + e2.len() + 1)));
        assert(i + e.len() + 1 == ib + e2.len() + 1);
    }
}

/// Decoding an encoded request document recovers exactly the request
/// identifier, command and application data it was encoded from.
pub proof fn lemma_payload_round_trip(rid: Seq<char>, cmd: Seq<char>, data: Seq<char>)
    ensures
        parse_payload(payload_text(rid, cmd, data)) == Some((rid, cmd, data)),
{
    let s = payload_text(rid, cmd, data);
    let e1 = escape_seq(rid);
    let e2 = escape_seq(cmd);
    let a1 = lit_req().len() as int;
    let a2 = a1 + e1.len();
    let a3 = a2 + 1;
    let a4 = a3 + lit_cmd().len();
    let a5 = a4 + e2.len();
    let a6 = a5 + 1;
    let a7 = a6 + lit_data().len();
    let a8 = a7 + data.len();
    assert(s.len() == a8 + 1);
    assert forall|k: int| 0 <= k < lit_req().len() implies s[k] == lit_req()[k] by {
        assert(s.subrange(0, a1)[k] == s[k]);
        assert(s.subrange(0, a1) =~= lit_req());
    }
    assert(match_at(s, 0, lit_req()));
    assert forall|k: int| 0 <= k < e1.len() implies s[a1 + k] == e1[k] by {
        assert(s.subrange(a1, a2)[k] == s[a1 + k]);
        assert(s.subrange(a1, a2) =~= e1);
    }
    assert(s[a2] == '"') by {
        assert(s.subrange(a2, a3) =~= seq!['"']);
        assert(s.subrange(a2, a3)[0] == s[a2]);
    }
    lemma_scan_escape(s, a1, rid);
    assert(scan_from(s, a1) == Some((rid, a3)));
    assert forall|k: int| 0 <= k < lit_cmd().len() implies s[a3 + k] == lit_cmd()[k] by {
        assert(s.subrange(a3, a4)[k] == s[a3 + k]);
        assert(s.subrange(a3, a4) =~= lit_cmd());
    }
    assert(match_at(s, a3, lit_cmd()));
    assert forall|k: int| 0 <= k < e2.len() implies s[a4 + k] == e2[k] by {
        assert(s.subrange(a4, a5)[k] == s[a4 + k]);
        assert(s.subrange(a4, a5) =~= e2);
    }
    assert(s[a5] == '"') by {
        assert(s.subrange(a5, a6) =~= seq!['"']);
        assert(s.subrange(a5, a6)[0] == s[a5]);
    }
    lemma_scan_escape(s, a4, cmd);
    assert(scan_from(s, a4) == Some((cmd, a6)));
    assert forall|k: int| 0 <= k < lit_data().len() implies s[a6 + k] == lit_data()[k] by {
        assert(s.subrange(a6, a7)[k] == s[a6 + k]);
        assert(s.subrange(a6, a7) =~= lit_data());
    }
    assert(match_at(s, a6, lit_data()));
    assert(s[a8] == '}') by {
        assert(s.subrange(a8, a8 + 1) =~= seq!['}']);
        assert(s.subrange(a8, a8 + 1)[0] == s[a8]);
    }
    assert(s.subrange(a7, a8) =~= data);
    assert(parse_payload(s) == Some((rid, cmd, data)));
}

// ---------------------------------------------------------------------------
// The response document
// ---------------------------------------------------------------------------

/// From the closing quote of the request identifier up to the success value,
/// in a response document.
pub open spec fn lit_succ() -> Seq<char> {
    ",\"success\":"@
}

/// The lead of the error field in a response document.
pub open spec fn lit_err() -> Seq<char> {
    ",\"error\":"@
}

/// The text of the true value.
pub open spec fn lit_true() -> Seq<char> {
    "true"@
}

/// The text of the false value.
pub open spec fn lit_false() -> Seq<char> {
    "false"@
}

/// The text of the null value, standing for an absent field.
pub open spec fn lit_null() -> Seq<char> {
    "null"@
}

/// The text of an optional string, seen through the view.
pub open spec fn opt_text(o: Option<String>) -> Option<Seq<char>> {
    match o {
        None => None,
        Some(s) => Some(s@),
    }
}

/// The text of a response document carrying the given request identifier,
/// success flag, optional error message and optional application data.
pub open spec fn response_text(
    rid: Seq<char>,
    success: bool,
    error: Option<Seq<char>>,
    data: Option<Seq<char>>,
) -> Seq<char> {
    lit_req() + escape_seq(rid) + seq!['"'] + lit_succ() + (if success {
        lit_true()
    } else {
        lit_false()
    }) + lit_err() + (match error {
        None => lit_null(),
        Some(e) => seq!['"'] + escape_seq(e) + seq!['"'],
    }) + lit_data() + (match data {
        None => lit_null(),
        Some(d) => d,
    }) + seq!['}']
}

/// Parse a response document: its request identifier, success flag, optional
/// error message and optional application data, or nothing if the text is not
/// a valid response document.
pub open spec fn parse_response(s: Seq<char>) -> Option<
    (Seq<char>, bool, Option<Seq<char>>, Option<Seq<char>>),
> {
    if !match_at(s, 0, lit_req()) {
        None
    } else {
        match scan_from(s, lit_req().len() as int) {
            None => None,
            Some(ri) => {
                if !match_at(s, ri.1, lit_succ()) {
                    None
                } else {
                    let i2 = ri.1 + lit_succ().len();
                    let sv: Option<(bool, int)> = if match_at(s, i2, lit_true()) {
                        Some((true, i2 + lit_true().len()))
                    } else if match_at(s, i2, lit_false()) {
                        Some((false, i2 + lit_false().len()))
                    } else {
                        None
                    };
                    match sv {
                        None => None,
                        Some(bv) => {
                            if !match_at(s, bv.1, lit_err()) {
                                None
                            } else {
                                let i4 = bv.1 + lit_err().len();
                                let ev: Option<(Option<Seq<char>>, int)> = if i4 < s.len() && s[i4]
                                    == '"' {
                                    match scan_from(s, i4 + 1) {
                                        None => None,
                                        Some(ek) => Some((Some(ek.0), ek.1)),
                                    }
                                } else if match_at(s, i4, lit_null()) {
                                    Some((None, i4 + lit_null().len()))
                                } else {
                                    None
                                };
                                match ev {
                                    None => None,
                                    Some(ei) => {
                                        if !match_at(s, ei.1, lit_data()) {
                                            None
                                        } else {
                                            let k = ei.1 + lit_data().len();
                                            if k <= s.len() - 1 && s[s.len() - 1] == '}' {
                                                let raw = s.subrange(k, s.len() - 1);
                                                Some(
                                                    (
                                                        ri.0,
                                                        bv.0,
                                                        ei.0,
                                                        if raw == lit_null() {
                                                            None
                                                        } else {
                                                            Some(raw)
                                                        },
                                                    ),
                                                )
                                            } else {
                                                None
                                            }
                                        }
                                    },
                                }
                            }
                        },
                    }
                }
            },
        }
    }
}

/// Encode a response as one response document.
pub fn encode_response(resp: &SocketResponse) -> (r: String)
    ensures
        r@ == response_text(
            resp.request_id@,
            resp.success,
            opt_text(resp.error),
            opt_text(resp.data),
        ),
{
    let mut out = "{\"request_id\":\"".to_owned();
    append_escaped(&mut out, resp.request_id.as_str());
    out.append("\"");
    out.append(",\"success\":");
    if resp.success {
        out.append("true");
    } else {
        out.append("false");
    }
    out.append(",\"error\":");
    match &resp.error {
        Some(e) => {
            out.append("\"");
            append_escaped(&mut out, e.as_str());
            out.append("\"");
        },
        None => {
            out.append("null");
        },
    }
    out.append(",\"data\":");
    match &resp.data {
        Some(d) => {
            out.append(d.as_str());
        },
        None => {
            out.append("null");
        },
    }
    out.append("}");
    proof {
        reveal_strlit("\"");
        reveal_strlit("}");
        assert("\""@ =~= seq!['"']);
        assert("}"@ =~= seq!['}']);
        assert(out@ =~= response_text(
            resp.request_id@,
            resp.success,
            opt_text(resp.error),
            opt_text(resp.data),
        ));
    }
    out
}

/// Decode a response document, if the text is one.
pub fn decode_response(s: &str) -> (r: Option<SocketResponse>)
    ensures
        match parse_response(s@) {
            None => r is None,
            Some(t) => r matches Some(resp) && resp.request_id@ == t.0 && resp.success == t.1
                && opt_text(resp.error) == t.2 && opt_text(resp.data) == t.3,
        },
{
    let n = s.unicode_len();
    let lit1 = "{\"request_id\":\"";
    if !match_lit(s, 0, lit1) {
        return None;
    }
    let (request_id, i) = match scan_string(s, lit1.unicode_len()) {
        Some(p) => p,
        None => {
            return None;
        },
    };
    let lit2 = ",\"success\":";
    if !match_lit(s, i, lit2) {
        return None;
    }
    let i2 = i + lit2.unicode_len();
    let lt = "true";
    let lf = "false";
    let (success, i3): (bool, usize) = if match_lit(s, i2, lt) {
        (true, i2 + lt.unicode_len())
    } else if match_lit(s, i2, lf) {
        (false, i2 + lf.unicode_len())
    } else {
        return None;
    };
    let lit4 = ",\"error\":";
    if !match_lit(s, i3, lit4) {
        return None;
    }
    let i4 = i3 + lit4.unicode_len();
    let ln = "null";
    let (error, i5): (Option<String>, usize) = if i4 < n && s.get_char(i4) == '"' {
        match scan_string(s, i4 + 1) {
            Some(p) => (Some(p.0), p.1),
            None => {
                return None;
            },
        }
    } else if match_lit(s, i4, ln) {
        (None, i4 + ln.unicode_len())
    } else {
        return None;
    };
    let lit3 = ",\"data\":";
    if !match_lit(s, i5, lit3) {
        return None;
    }
    let k = i5 + lit3.unicode_len();
    if !(k < n) {
        return None;
    }
    if s.get_char(n - 1) != '}' {
        return None;
    }
    let raw = s.substring_char(k, n - 1).to_owned();
    let data: Option<String> = if raw == ln.to_owned() {
        None
    } else {
        Some(raw)
    };
    Some(SocketResponse { request_id, success, data, error })
}

/// Decoding an encoded response document recovers exactly the fields it was
/// encoded from, as long as the data text is not itself the null value.
#[verifier::rlimit(100)]
pub proof fn lemma_response_round_trip(
    rid: Seq<char>,
    success: bool,
    error: Option<Seq<char>>,
    data: Option<Seq<char>>,
)
    requires
        data != Some(lit_null()),
    ensures
        parse_response(response_text(rid, success, error, data)) == Some(
            (rid, success, error, data),
        ),
{
    let s = response_text(rid, success, error, data);
    let e1 = escape_seq(rid);
    let tb = if success {
        lit_true()
    } else {
        lit_false()
    };
    let ev: Seq<char> = match error {
        None => lit_null(),
        Some(e) => seq!['"'] + escape_seq(e) + seq!['"'],
    };
    let dv: Seq<char> = match data {
        None => lit_null(),
        Some(d) => d,
    };
    let a1 = lit_req().len() as int;
    let a2 = a1 + e1.len();
    let a3 = a2 + 1;
    let a4 = a3 + lit_succ().len();
    let a5 = a4 + tb.len();
    let a6 = a5 + lit_err().len();
    let a7 = a6 + ev.len();
    let a8 = a7 + lit_data().len();
    let a9 = a8 + dv.len();
    assert(s.len() == a9 + 1);
    assert forall|k: int| 0 <= k < lit_req().len() implies s[k] == lit_req()[k] by {
        assert(s.subrange(0, a1)[k] == s[k]);
        assert(s.subrange(0, a1) =~= lit_req());
    }
    assert(match_at(s, 0, lit_req()));
    assert forall|k: int| 0 <= k < e1.len() implies s[a1 + k] == e1[k] by {
        assert(s.subrange(a1, a2)[k] == s[a1 + k]);
        assert(s.subrange(a1, a2) =~= e1);
    }
    assert(s[a2] == '"') by {
        assert(s.subrange(a2, a3) =~= seq!['"']);
        assert(s.subrange(a2, a3)[0] == s[a2]);
    }
    lemma_scan_escape(s, a1, rid);
    assert(scan_from(s, a1) == Some((rid, a3)));
    assert forall|k: int| 0 <= k < lit_succ().len() implies s[a3 + k] == lit_succ()[k] by {
        assert(s.subrange(a3, a4)[k] == s[a3 + k]);
        assert(s.subrange(a3, a4) =~= lit_succ());
    }
    assert(match_at(s, a3, lit_succ()));
    assert forall|k: int| 0 <= k < tb.len() implies s[a4 + k] == tb[k] by {
        assert(s.subrange(a4, a5)[k] == s[a4 + k]);
        assert(s.subrange(a4, a5) =~= tb);
    }
    assert(match_at(s, a4, tb));
    if !success {
        // the document cannot also carry the true value here
        reveal_strlit("true");
        reveal_strlit("false");
        assert(s[a4] == lit_false()[0]);
        assert(lit_false()[0] == 'f');
        assert(lit_true()[0] == 't');
        assert(!match_at(s, a4, lit_true()));
    }
    assert forall|k: int| 0 <= k < lit_err().len() implies s[a5 + k] == lit_err()[k] by {
        assert(s.subrange(a5, a6)[k] == s[a5 + k]);
        assert(s.subrange(a5, a6) =~= lit_err());
    }
    assert(match_at(s, a5, lit_err()));
    assert forall|k: int| 0 <= k < ev.len() implies s[a6 + k] == ev[k] by {
        assert(s.subrange(a6, a7)[k] == s[a6 + k]);
        assert(s.subrange(a6, a7) =~= ev);
    }
    match error {
        Some(e) => {
            let ee = escape_seq(e);
            assert(s[a6] == '"');
            assert forall|k: int| 0 <= k < ee.len() implies s[a6 + 1 + k] == ee[k] by {
                assert(ev[1 + k] == ee[k]);
                assert(s[a6 + (1 + k)] == ev[1 + k]);
            }
            assert(s[a6 + 1 + ee.len()] == '"') by {
                assert(ev[1 + ee.len() as int] == '"');
                assert(s[a6 + (1 + ee.len() as int)] == ev[1 + ee.len() as int]);
            }
            lemma_scan_escape(s, a6 + 1, e);
            assert(scan_from(s, a6 + 1) == Some((e, a7)));
        },
        None => {
            reveal_strlit("null");
            assert(ev == lit_null());
            assert(s[a6] == 'n');
            assert(s[a6] != '"');
            assert(match_at(s, a6, lit_null()));
        },
    }
    assert forall|k: int| 0 <= k < lit_data().len() implies s[a7 + k] == lit_data()[k] by {
        assert(s.subrange(a7, a8)[k] == s[a7 + k]);
        assert(s.subrange(a7, a8) =~= lit_data());
    }
    assert(match_at(s, a7, lit_data()));
    assert(s[a9] == '}') by {
        assert(s.subrange(a9, a9 + 1) =~= seq!['}']);
        assert(s.subrange(a9, a9 + 1)[0] == s[a9]);
    }
    assert(s.subrange(a8, a9) =~= dv);
    match data {
        None => {
            assert(s.subrange(a8, a9) == lit_null());
        },
        Some(d) => {
            assert(s.subrange(a8, a9) == d);
            assert(d != lit_null());
        },
    }
    assert(parse_response(s) == Some((rid, success, error, data)));
}

} // verus!
