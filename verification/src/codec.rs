//! The decision emitter and its inverse: rendering a `Verdict` as the
//! one-object response document, and reading such a document back.
//!
//! An approval renders as `{"decision":"approve","reason":"..."}` with the
//! reason JSON-escaped; a deferral renders as `{}` (both fields absent).
//! Decoding inverts encoding exactly, which is proved below.

use vstd::prelude::*;
use vstd::string::StrSliceExecFns;
use vstd::string::StringExecFns;
use crate::classify::Verdict;
use crate::text::{str_eq, matches_at};

verus! {

/// Relies on `String::push`: appends the given character to the end of the
/// string.
pub assume_specification[ String::push ](s: &mut String, ch: char)
    ensures
        final(s)@ == old(s)@.push(ch),
;

/// The lowercase hexadecimal digit of a value below sixteen.
pub open spec fn hex_char(d: int) -> char {
    if d == 0 {
        '0'
    } else if d == 1 {
        '1'
    } else if d == 2 {
        '2'
    } else if d == 3 {
        '3'
    } else if d == 4 {
        '4'
    } else if d == 5 {
        '5'
    } else if d == 6 {
        '6'
    } else if d == 7 {
        '7'
    } else if d == 8 {
        '8'
    } else if d == 9 {
        '9'
    } else if d == 10 {
        'a'
    } else if d == 11 {
        'b'
    } else if d == 12 {
        'c'
    } else if d == 13 {
        'd'
    } else if d == 14 {
        'e'
    } else {
        'f'
    }
}

/// The value of a lowercase hexadecimal digit, or a negative number when
/// `c` is no such digit.
pub open spec fn hex_val(c: char) -> int {
    if c == '0' {
        0
    } else if c == '1' {
        1
    } else if c == '2' {
        2
    } else if c == '3' {
        3
    } else if c == '4' {
        4
    } else if c == '5' {
        5
    } else if c == '6' {
        6
    } else if c == '7' {
        7
    } else if c == '8' {
        8
    } else if c == '9' {
        9
    } else if c == 'a' {
        10
    } else if c == 'b' {
        11
    } else if c == 'c' {
        12
    } else if c == 'd' {
        13
    } else if c == 'e' {
        14
    } else if c == 'f' {
        15
    } else {
        -1
    }
}

proof fn lemma_hex_round_trip(d: int)
    requires
        0 <= d < 16,
    ensures
        hex_val(hex_char(d)) == d,
{
}

/// How one character of a reason is written inside the JSON string: quote
/// and backslash get a backslash escape, control characters a `\u00..`
/// escape, everything else stands as itself.
pub open spec fn escape_char(c: char) -> Seq<char> {
    if c == '"' {
        seq!['\\', '"']
    } else if c == '\\' {
        seq!['\\', '\\']
    } else if (c as u32) < 0x20 {
        seq!['\\', 'u', '0', '0', hex_char((c as u32 / 16) as int), hex_char((c as u32 % 16) as int)]
    } else {
        seq![c]
    }
}

/// The JSON-escaped form of a reason text.
pub open spec fn escape(s: Seq<char>) -> Seq<char>
    decreases s.len(),
{
    if s.len() == 0 {
        Seq::empty()
    } else {
        escape_char(s[0]) + escape(s.drop_first())
    }
}

/// Prepends a character to a successfully unescaped tail.
pub open spec fn prepend(c: char, rest: Option<Seq<char>>) -> Option<Seq<char>> {
    match rest {
        Some(t) => Some(seq![c] + t),
        None => None,
    }
}

/// Reads an escaped JSON string body back; `None` on a malformed body (a
/// bare quote, a bare control character, or an unknown escape).
pub open spec fn unescape(s: Seq<char>) -> Option<Seq<char>>
    decreases s.len(),
{
    if s.len() == 0 {
        Some(Seq::empty())
    } else if s[0] == '\\' {
        if s.len() < 2 {
            None
        } else if s[1] == '"' {
            prepend('"', unescape(s.skip(2)))
        } else if s[1] == '\\' {
            prepend('\\', unescape(s.skip(2)))
        } else if s[1] == 'u' {
            if s.len() < 6 {
                None
            } else if s[2] == '0' && s[3] == '0' && hex_val(s[4]) >= 0 && hex_val(s[5]) >= 0
                && hex_val(s[4]) * 16 + hex_val(s[5]) < 0x20 {
                prepend((((hex_val(s[4]) * 16 + hex_val(s[5])) as u8) as char), unescape(s.skip(6)))
            } else {
                None
            }
        } else {
            None
        }
    } else if s[0] == '"' || (s[0] as u32) < 0x20 {
        None
    } else {
        prepend(s[0], unescape(s.skip(1)))
    }
}

/// Unescaping inverts escaping: every reason text survives the trip through
/// its JSON-escaped form unchanged.
pub proof fn lemma_unescape_escape(s: Seq<char>)
    ensures
        unescape(escape(s)) == Some(s),
    decreases s.len(),
{
    if s.len() == 0 {
    } else {
        lemma_unescape_escape(s.drop_first());
        let c = s[0];
        let e = escape(s);
        assert(e == escape_char(c) + escape(s.drop_first()));
        assert(seq![c] + s.drop_first() =~= s);
        if c == '"' {
            assert(e.skip(2) =~= escape(s.drop_first()));
        } else if c == '\\' {
            assert(e.skip(2) =~= escape(s.drop_first()));
        } else if (c as u32) < 0x20 {
            let u = c as u32;
            lemma_hex_round_trip((u / 16) as int);
            lemma_hex_round_trip((u % 16) as int);
            assert(hex_val(e[4]) * 16 + hex_val(e[5]) == u);
            vstd::utf8::char_u32_cast(c, u);
            assert((((hex_val(e[4]) * 16 + hex_val(e[5])) as u8) as char) == c);
            assert(e.skip(6) =~= escape(s.drop_first()));
        } else {
            assert(e.skip(1) =~= escape(s.drop_first()));
        }
    }
}

/// The decision at document level: `None` defers, `Some(reason)` approves.
pub open spec fn verdict_model(v: Verdict) -> Option<Seq<char>> {
    match v {
        Verdict::Approve { reason } => Some(reason@),
        Verdict::Defer => None,
    }
}

/// Everything of the approval document before the reason text.
pub open spec fn doc_prefix() -> Seq<char> {
    "{\"decision\":\"approve\",\"reason\":\""@
}

/// Everything of the approval document after the reason text.
pub open spec fn doc_suffix() -> Seq<char> {
    "\"}"@
}

/// The deferral document: no decision, no reason.
pub open spec fn empty_doc() -> Seq<char> {
    "{}"@
}

/// The response document of a decision.
pub open spec fn encode_doc(m: Option<Seq<char>>) -> Seq<char> {
    match m {
        None => empty_doc(),
        Some(reason) => doc_prefix() + escape(reason) + doc_suffix(),
    }
}

/// Reads a response document back into a decision; `None` on a document
/// this emitter never writes.
pub open spec fn decode_doc(s: Seq<char>) -> Option<Option<Seq<char>>> {
    if s == empty_doc() {
        Some(None)
    } else if s.len() >= doc_prefix().len() + doc_suffix().len()
        && s.subrange(0, doc_prefix().len() as int) == doc_prefix()
        && s.subrange(s.len() - doc_suffix().len(), s.len() as int) == doc_suffix() {
        match unescape(s.subrange(doc_prefix().len() as int, s.len() - doc_suffix().len())) {
            Some(reason) => Some(Some(reason)),
            None => None,
        }
    } else {
        None
    }
}

/// Serializing a decision and deserializing the document reproduces the
/// decision: an approval comes back with its reason, a deferral as a
/// deferral.
pub proof fn lemma_response_round_trip(m: Option<Seq<char>>)
    ensures
        decode_doc(encode_doc(m)) == Some(m),
{
    reveal_strlit("{}");
    reveal_strlit("{\"decision\":\"approve\",\"reason\":\"");
    reveal_strlit("\"}");
    match m {
        None => {
        },
        Some(reason) => {
            let s = encode_doc(m);
            let e = escape(reason);
            assert(s == doc_prefix() + e + doc_suffix());
            assert(s.len() == doc_prefix().len() + e.len() + doc_suffix().len());
            assert(s != empty_doc());
            assert(s.subrange(0, doc_prefix().len() as int) =~= doc_prefix());
            assert(s.subrange(s.len() - doc_suffix().len(), s.len() as int) =~= doc_suffix());
            assert(s.subrange(doc_prefix().len() as int, s.len() - doc_suffix().len()) =~= e);
            lemma_unescape_escape(reason);
        },
    }
}

/// The lowercase hexadecimal digit character of `d`.
fn hex_char_exec(d: u32) -> (c: char)
    requires
        d < 16,
    ensures
        c == hex_char(d as int),
{
    match d {
        0 => '0',
        1 => '1',
        2 => '2',
        3 => '3',
        4 => '4',
        5 => '5',
        6 => '6',
        7 => '7',
        8 => '8',
        9 => '9',
        10 => 'a',
        11 => 'b',
        12 => 'c',
        13 => 'd',
        14 => 'e',
        _ => 'f',
    }
}

/// The value of a lowercase hexadecimal digit character, if it is one.
fn hex_val_exec(c: char) -> (v: Option<u8>)
    ensures
        match v {
            Some(d) => d < 16 && hex_val(c) == d as int,
            None => hex_val(c) == -1,
        },
{
    match c {
        '0' => Some(0),
        '1' => Some(1),
        '2' => Some(2),
        '3' => Some(3),
        '4' => Some(4),
        '5' => Some(5),
        '6' => Some(6),
        '7' => Some(7),
        '8' => Some(8),
        '9' => Some(9),
        'a' => Some(10),
        'b' => Some(11),
        'c' => Some(12),
        'd' => Some(13),
        'e' => Some(14),
        'f' => Some(15),
        _ => None,
    }
}

/// JSON-escapes a reason text.
fn escape_string(s: &str) -> (r: String)
    ensures
        r@ == escape(s@),
{
    let n = s.unicode_len();
    let mut out = String::new();
    let mut i: usize = 0;
    proof {
        assert(s@.skip(0) =~= s@);
        assert(Seq::<char>::empty() + escape(s@) =~= escape(s@));
    }
    while i < n
        invariant
            i <= n,
            n == s@.len(),
            escape(s@) == out@ + escape(s@.skip(i as int)),
        decreases n - i,
    {
        let c = s.get_char(i);
        let ghost out0 = out@;
        let ghost rem = s@.skip(i as int);
        proof {
            assert(rem[0] == s@[i as int]);
            assert(rem.drop_first() =~= s@.skip(i + 1));
            assert(escape(rem) == escape_char(c) + escape(s@.skip(i + 1)));
        }
        if c == '"' {
            out.append("\\\"");
            proof {
                reveal_strlit("\\\"");
                assert(out@ =~= out0 + escape_char(c));
            }
        } else if c == '\\' {
            out.append("\\\\");
            proof {
                reveal_strlit("\\\\");
                assert(out@ =~= out0 + escape_char(c));
            }
        } else {
            let u = c as u32;
            if u < 0x20 {
                out.append("\\u00");
                let h1 = hex_char_exec(u / 16);
                let h2 = hex_char_exec(u % 16);
                out.push(h1);
                out.push(h2);
                proof {
                    reveal_strlit("\\u00");
                    assert(out@ =~= out0 + escape_char(c));
                }
            } else {
                out.push(c);
                proof {
                    assert(out@ =~= out0 + escape_char(c));
                }
            }
        }
        proof {
            assert(out0 + (escape_char(c) + escape(s@.skip(i + 1))) =~= (out0 + escape_char(c))
                + escape(s@.skip(i + 1)));
        }
        i = i + 1;
    }
    proof {
        assert(s@.skip(n as int) =~= Seq::<char>::empty());
        assert(out@ + escape(s@.skip(n as int)) =~= out@);
    }
    out
}

/// Renders a verdict as the response document.
pub fn encode_response(v: &Verdict) -> (r: String)
    ensures
        r@ == encode_doc(verdict_model(*v)),
{
    match v {
        Verdict::Defer => String::from_str("{}"),
        Verdict::Approve { reason } => {
            let mut out = String::from_str("{\"decision\":\"approve\",\"reason\":\"");
            let body = escape_string(reason.as_str());
            out.append(body.as_str());
            out.append("\"}");
            proof {
                assert(out@ =~= doc_prefix() + escape(reason@) + doc_suffix());
            }
            out
        },
    }
}

/// Prepends an already-unescaped run to a successfully unescaped tail.
spec fn prepend_run(p: Seq<char>, rest: Option<Seq<char>>) -> Option<Seq<char>> {
    match rest {
        Some(t) => Some(p + t),
        None => None,
    }
}

/// Unescapes the characters of `s` between `from` and `to`.
fn unescape_range(s: &str, from: usize, to: usize) -> (r: Option<String>)
    requires
        from <= to,
        to <= s@.len(),
    ensures
        match r {
            Some(t) => unescape(s@.subrange(from as int, to as int)) == Some(t@),
            None => unescape(s@.subrange(from as int, to as int)) is None,
        },
{
    let ghost b = s@.subrange(from as int, to as int);
    let mut out = String::new();
    let mut i: usize = from;
    proof {
        assert(b.skip(0) =~= b);
        match unescape(b) {
            Some(t) => {
                assert(Seq::<char>::empty() + t =~= t);
            },
            None => {},
        }
    }
    while i < to
        invariant
            from <= i <= to,
            to <= s@.len(),
            b == s@.subrange(from as int, to as int),
            unescape(b) == prepend_run(out@, unescape(b.skip(i - from))),
        decreases to - i,
    {
        let c = s.get_char(i);
        let ghost out0 = out@;
        let ghost rem = b.skip(i - from);
        proof {
            assert(rem.len() == to - i);
            assert(rem[0] == s@[i as int]);
        }
        if c == '\\' {
            if to - i < 2 {
                proof {
                    assert(unescape(rem) is None);
                }
                return None;
            }
            let c2 = s.get_char(i + 1);
            proof {
                assert(rem[1] == s@[i + 1]);
            }
            if c2 == '"' {
                out.push('"');
                proof {
                    assert(rem.skip(2) =~= b.skip(i + 2 - from));
                    assert(unescape(rem) == prepend('"', unescape(rem.skip(2))));
                    assert(prepend_run(out0, prepend('"', unescape(rem.skip(2))))
                        == prepend_run(out@, unescape(rem.skip(2)))) by {
                        match unescape(rem.skip(2)) {
                            Some(t) => {
                                assert(out0 + (seq!['"'] + t) =~= out0.push('"') + t);
                            },
                            None => {},
                        }
                    }
                }
                i = i + 2;
            } else if c2 == '\\' {
                out.push('\\');
                proof {
                    assert(rem.skip(2) =~= b.skip(i + 2 - from));
                    assert(unescape(rem) == prepend('\\', unescape(rem.skip(2))));
                    assert(prepend_run(out0, prepend('\\', unescape(rem.skip(2))))
                        == prepend_run(out@, unescape(rem.skip(2)))) by {
                        match unescape(rem.skip(2)) {
                            Some(t) => {
                                assert(out0 + (seq!['\\'] + t) =~= out0.push('\\') + t);
                            },
                            None => {},
                        }
                    }
                }
                i = i + 2;
            } else if c2 == 'u' {
                if to - i < 6 {
                    proof {
                        assert(unescape(rem) is None);
                    }
                    return None;
                }
                let c3 = s.get_char(i + 2);
                let c4 = s.get_char(i + 3);
                let c5 = s.get_char(i + 4);
                let c6 = s.get_char(i + 5);
                proof {
                    assert(rem[2] == s@[i + 2]);
                    assert(rem[3] == s@[i + 3]);
                    assert(rem[4] == s@[i + 4]);
                    assert(rem[5] == s@[i + 5]);
                }
                if c3 != '0' || c4 != '0' {
                    proof {
                        assert(unescape(rem) is None);
                    }
                    return None;
                }
                let d1 = match hex_val_exec(c5) {
                    Some(d) => d,
                    None => {
                        proof {
                            assert(unescape(rem) is None);
                        }
                        return None;
                    },
                };
                let d2 = match hex_val_exec(c6) {
                    Some(d) => d,
                    None => {
                        proof {
                            assert(unescape(rem) is None);
                        }
                        return None;
                    },
                };
                let value: u32 = (d1 as u32) * 16 + (d2 as u32);
                if value >= 0x20 {
                    proof {
                        assert(unescape(rem) is None);
                    }
                    return None;
                }
                let ch = (value as u8) as char;
                out.push(ch);
                proof {
                    assert(rem.skip(6) =~= b.skip(i + 6 - from));
                    assert(unescape(rem) == prepend(ch, unescape(rem.skip(6))));
                    assert(prepend_run(out0, prepend(ch, unescape(rem.skip(6))))
                        == prepend_run(out@, unescape(rem.skip(6)))) by {
                        match unescape(rem.skip(6)) {
                            Some(t) => {
                                assert(out0 + (seq![ch] + t) =~= out0.push(ch) + t);
                            },
                            None => {},
                        }
                    }
                }
                i = i + 6;
            } else {
                proof {
                    assert(unescape(rem) is None);
                }
                return None;
            }
        } else if c == '"' {
            proof {
                assert(unescape(rem) is None);
            }
            return None;
        } else {
            let u = c as u32;
            if u < 0x20 {
                proof {
                    assert(unescape(rem) is None);
                }
                return None;
            }
            out.push(c);
            proof {
                assert(rem.skip(1) =~= b.skip(i + 1 - from));
                assert(unescape(rem) == prepend(c, unescape(rem.skip(1))));
                assert(prepend_run(out0, prepend(c, unescape(rem.skip(1))))
                    == prepend_run(out@, unescape(rem.skip(1)))) by {
                    match unescape(rem.skip(1)) {
                        Some(t) => {
                            assert(out0 + (seq![c] + t) =~= out0.push(c) + t);
                        },
                        None => {},
                    }
                }
            }
            i = i + 1;
        }
    }
    proof {
        assert(b.skip(to - from) =~= Seq::<char>::empty());
        assert(out@ + Seq::<char>::empty() =~= out@);
    }
    Some(out)
}

/// Reads a response document back into a verdict; `None` on a document the
/// emitter never writes.
pub fn decode_response(s: &str) -> (r: Option<Verdict>)
    ensures
        match r {
            Some(v) => decode_doc(s@) == Some(verdict_model(v)),
            None => decode_doc(s@) is None,
        },
{
    if str_eq(s, "{}") {
        return Some(Verdict::Defer);
    }
    let n = s.unicode_len();
    let p = "{\"decision\":\"approve\",\"reason\":\"";
    let plen = p.unicode_len();
    let q = "\"}";
    let qlen = q.unicode_len();
    if n < plen {
        return None;
    }
    if n - plen < qlen {
        return None;
    }
    if !matches_at(s, 0, p) {
        return None;
    }
    if !matches_at(s, n - qlen, q) {
        proof {
            assert(n - qlen + q@.len() == n);
        }
        return None;
    }
    proof {
        assert(n - qlen + q@.len() == n);
    }
    match unescape_range(s, plen, n - qlen) {
        Some(t) => Some(Verdict::Approve { reason: t }),
        None => None,
    }
}

} // verus!
