use vstd::prelude::*;
use vstd::string::StrSliceExecFns;
use vstd::string::StringExecFns;

use crate::proposal::CommitProposal;
use crate::strutil::push_char;

verus! {

/// JSON's insignificant whitespace.
pub open spec fn is_json_ws(c: char) -> bool {
    c == ' ' || c == '\t' || c == '\n' || c == '\r'
}

/// The hexadecimal digit for a value below sixteen.
pub open spec fn hex_digit(n: int) -> char {
    if n == 0 {
        '0'
    } else if n == 1 {
        '1'
    } else if n == 2 {
        '2'
    } else if n == 3 {
        '3'
    } else if n == 4 {
        '4'
    } else if n == 5 {
        '5'
    } else if n == 6 {
        '6'
    } else if n == 7 {
        '7'
    } else if n == 8 {
        '8'
    } else if n == 9 {
        '9'
    } else if n == 10 {
        'a'
    } else if n == 11 {
        'b'
    } else if n == 12 {
        'c'
    } else if n == 13 {
        'd'
    } else if n == 14 {
        'e'
    } else {
        'f'
    }
}

/// The value of a hexadecimal digit, either case.
pub open spec fn hex_val(c: char) -> Option<u32> {
    if c == '0' {
        Some(0u32)
    } else if c == '1' {
        Some(1u32)
    } else if c == '2' {
        Some(2u32)
    } else if c == '3' {
        Some(3u32)
    } else if c == '4' {
        Some(4u32)
    } else if c == '5' {
        Some(5u32)
    } else if c == '6' {
        Some(6u32)
    } else if c == '7' {
        Some(7u32)
    } else if c == '8' {
        Some(8u32)
    } else if c == '9' {
        Some(9u32)
    } else if c == 'a' || c == 'A' {
        Some(10u32)
    } else if c == 'b' || c == 'B' {
        Some(11u32)
    } else if c == 'c' || c == 'C' {
        Some(12u32)
    } else if c == 'd' || c == 'D' {
        Some(13u32)
    } else if c == 'e' || c == 'E' {
        Some(14u32)
    } else if c == 'f' || c == 'F' {
        Some(15u32)
    } else {
        None::<u32>
    }
}

/// The escape sequence the encoder emits for one character: the two-character
/// escapes JSON names, a `\u00..` escape for the other control characters,
/// and the character itself otherwise.
pub open spec fn escape_char(c: char) -> Seq<char> {
    if c == '"' {
        seq!['\\', '"']
    } else if c == '\\' {
        seq!['\\', '\\']
    } else if c == '\n' {
        seq!['\\', 'n']
    } else if c == '\r' {
        seq!['\\', 'r']
    } else if c == '\t' {
        seq!['\\', 't']
    } else if (c as u32) < 0x20 {
        seq!['\\', 'u', '0', '0', hex_digit(c as u32 as int / 16), hex_digit(c as u32 as int % 16)]
    } else {
        seq![c]
    }
}

/// The encoder's escaping of a whole string body.
pub open spec fn escape_string(s: Seq<char>) -> Seq<char>
    decreases s.len(),
{
    if s.len() == 0 {
        Seq::empty()
    } else {
        escape_char(s[0]) + escape_string(s.drop_first())
    }
}

/// The canonical encoding of a proposal under the commit schema.
pub open spec fn spec_encode_proposal(title: Seq<char>, description: Seq<char>) -> Seq<char> {
    "{\"title\":\""@ + escape_string(title) + "\",\"description\":\""@ + escape_string(description)
        + "\"}"@
}

/// What a short escape after the backslash decodes to.
pub open spec fn unescape_short(e: char) -> Option<char> {
    if e == '"' {
        Some('"')
    } else if e == '\\' {
        Some('\\')
    } else if e == '/' {
        Some('/')
    } else if e == 'n' {
        Some('\n')
    } else if e == 'r' {
        Some('\r')
    } else if e == 't' {
        Some('\t')
    } else if e == 'b' {
        Some('\u{0008}')
    } else if e == 'f' {
        Some('\u{000C}')
    } else {
        None::<char>
    }
}

/// The value of four hexadecimal digits.
pub open spec fn hex4(a: char, b: char, c: char, d: char) -> Option<u32> {
    match (hex_val(a), hex_val(b), hex_val(c), hex_val(d)) {
        (Some(x), Some(y), Some(z), Some(w)) => Some(
            (x * 4096 + y * 256 + z * 16 + w) as u32,
        ),
        _ => None::<u32>,
    }
}

/// Parses a JSON string body (the opening quote already consumed): the
/// decoded content, and the rest of the input after the closing quote.
/// Escapes follow the JSON grammar: the short escapes, `\u` with four
/// hexadecimal digits, and surrogate pairs combined into one character;
/// a lone surrogate or an unescaped control character is malformed.
pub open spec fn parse_string_body(s: Seq<char>) -> Option<(Seq<char>, Seq<char>)>
    decreases s.len(),
{
    if s.len() == 0 {
        None
    } else if s[0] == '"' {
        Some((Seq::empty(), s.drop_first()))
    } else if s[0] == '\\' {
        if s.len() < 2 {
            None
        } else if s[1] == 'u' {
            if s.len() < 6 {
                None
            } else {
                match hex4(s[2], s[3], s[4], s[5]) {
                    Some(v) => if 0xD800 <= v < 0xDC00 {
                        if s.len() >= 12 && s[6] == '\\' && s[7] == 'u' {
                            match hex4(s[8], s[9], s[10], s[11]) {
                                Some(w) => if 0xDC00 <= w < 0xE000 {
                                    match parse_string_body(s.skip(12)) {
                                        Some(p) => Some(
                                            (
                                                seq![
                                                    ((0x10000 + (v - 0xD800) * 0x400 + (w
                                                        - 0xDC00)) as u32) as char,
                                                ] + p.0,
                                                p.1,
                                            ),
                                        ),
                                        None => None,
                                    }
                                } else {
                                    None
                                },
                                None => None,
                            }
                        } else {
                            None
                        }
                    } else if 0xDC00 <= v < 0xE000 {
                        None
                    } else {
                        match parse_string_body(s.skip(6)) {
                            Some(p) => Some((seq![v as char] + p.0, p.1)),
                            None => None,
                        }
                    },
                    None => None,
                }
            }
        } else {
            match unescape_short(s[1]) {
                Some(c) => match parse_string_body(s.skip(2)) {
                    Some(p) => Some((seq![c] + p.0, p.1)),
                    None => None,
                },
                None => None,
            }
        }
    } else if (s[0] as u32) < 0x20 {
        None
    } else {
        match parse_string_body(s.drop_first()) {
            Some(p) => Some((seq![s[0]] + p.0, p.1)),
            None => None,
        }
    }
}

/// Skips JSON's insignificant whitespace.
pub open spec fn skip_json_ws(s: Seq<char>) -> Seq<char>
    decreases s.len(),
{
    if s.len() > 0 && is_json_ws(s[0]) {
        skip_json_ws(s.drop_first())
    } else {
        s
    }
}

/// The first schema field's key.
pub open spec fn title_key() -> Seq<char> {
    seq!['t', 'i', 't', 'l', 'e']
}

/// The second schema field's key.
pub open spec fn description_key() -> Seq<char> {
    seq!['d', 'e', 's', 'c', 'r', 'i', 'p', 't', 'i', 'o', 'n']
}

/// Parses one member: a string key, a colon, a string value, each side
/// allowing whitespace. Yields the key, the value, and the rest.
pub open spec fn parse_member(s: Seq<char>) -> Option<(Seq<char>, Seq<char>, Seq<char>)> {
    let s0 = skip_json_ws(s);
    if s0.len() == 0 || s0[0] != '"' {
        None
    } else {
        match parse_string_body(s0.drop_first()) {
            None => None,
            Some(kp) => {
                let s1 = skip_json_ws(kp.1);
                if s1.len() == 0 || s1[0] != ':' {
                    None
                } else {
                    let s2 = skip_json_ws(s1.drop_first());
                    if s2.len() == 0 || s2[0] != '"' {
                        None
                    } else {
                        match parse_string_body(s2.drop_first()) {
                            None => None,
                            Some(vp) => Some((kp.0, vp.0, vp.1)),
                        }
                    }
                }
            },
        }
    }
}

/// Parses an argument payload against the commit schema: exactly one object
/// holding exactly the two string members `title` and `description`, in
/// either order, with nothing after it; the title must be non-empty.
pub open spec fn spec_parse_proposal(s: Seq<char>) -> Option<(Seq<char>, Seq<char>)> {
    let s0 = skip_json_ws(s);
    if s0.len() == 0 || s0[0] != '{' {
        None
    } else {
        match parse_member(s0.drop_first()) {
            None => None,
            Some(m1) => {
                let s1 = skip_json_ws(m1.2);
                if s1.len() == 0 || s1[0] != ',' {
                    None
                } else {
                    match parse_member(s1.drop_first()) {
                        None => None,
                        Some(m2) => {
                            let s2 = skip_json_ws(m2.2);
                            if s2.len() == 0 || s2[0] != '}' {
                                None
                            } else if skip_json_ws(s2.drop_first()).len() != 0 {
                                None
                            } else if m1.0 == title_key() && m2.0 == description_key() {
                                if m1.1.len() == 0 {
                                    None
                                } else {
                                    Some((m1.1, m2.1))
                                }
                            } else if m1.0 == description_key() && m2.0 == title_key() {
                                if m2.1.len() == 0 {
                                    None
                                } else {
                                    Some((m2.1, m1.1))
                                }
                            } else {
                                None
                            }
                        },
                    }
                }
            },
        }
    }
}

/// Escaping one more character appends its escape sequence.
proof fn lemma_escape_snoc(p: Seq<char>, c: char)
    ensures
        escape_string(p.push(c)) == escape_string(p) + escape_char(c),
    decreases p.len(),
{
    if p.len() == 0 {
        assert(p.push(c) =~= seq![c]);
        assert(seq![c].drop_first() =~= Seq::<char>::empty());
        assert(escape_string(seq![c]) == escape_char(c) + escape_string(Seq::<char>::empty()));
        assert(escape_char(c) + Seq::<char>::empty() =~= escape_char(c));
        assert(escape_string(p) + escape_char(c) =~= escape_char(c));
    } else {
        lemma_escape_snoc(p.drop_first(), c);
        assert(p.push(c).drop_first() =~= p.drop_first().push(c));
        assert(escape_char(p[0]) + (escape_string(p.drop_first()) + escape_char(c)) =~= (
        escape_char(p[0]) + escape_string(p.drop_first())) + escape_char(c));
    }
}

/// The hexadecimal digit for `n` below sixteen, equal to the spec digit.
fn hex_digit_exec(n: u32) -> (c: char)
    requires
        n < 16,
    ensures
        c == hex_digit(n as int),
{
    if n == 0 {
        '0'
    } else if n == 1 {
        '1'
    } else if n == 2 {
        '2'
    } else if n == 3 {
        '3'
    } else if n == 4 {
        '4'
    } else if n == 5 {
        '5'
    } else if n == 6 {
        '6'
    } else if n == 7 {
        '7'
    } else if n == 8 {
        '8'
    } else if n == 9 {
        '9'
    } else if n == 10 {
        'a'
    } else if n == 11 {
        'b'
    } else if n == 12 {
        'c'
    } else if n == 13 {
        'd'
    } else if n == 14 {
        'e'
    } else {
        'f'
    }
}

/// Appends the escaped form of `s` to `out`.
fn append_escaped(out: &mut String, s: &String)
    ensures
        final(out)@ == old(out)@ + escape_string(s@),
{
    let n = s.as_str().unicode_len();
    let mut i: usize = 0;
    while i < n
        invariant
            i <= n,
            n == s@.len(),
            out@ == old(out)@ + escape_string(s@.take(i as int)),
        decreases n - i,
    {
        let c = s.as_str().get_char(i);
        if c == '"' {
            push_char(out, '\\');
            push_char(out, '"');
        } else if c == '\\' {
            push_char(out, '\\');
            push_char(out, '\\');
        } else if c == '\n' {
            push_char(out, '\\');
            push_char(out, 'n');
        } else if c == '\r' {
            push_char(out, '\\');
            push_char(out, 'r');
        } else if c == '\t' {
            push_char(out, '\\');
            push_char(out, 't');
        } else if (c as u32) < 0x20 {
            push_char(out, '\\');
            push_char(out, 'u');
            push_char(out, '0');
            push_char(out, '0');
            push_char(out, hex_digit_exec((c as u32) / 16));
            push_char(out, hex_digit_exec((c as u32) % 16));
        } else {
            push_char(out, c);
        }
        proof {
            lemma_escape_snoc(s@.take(i as int), c);
            assert(s@.take(i as int).push(c) =~= s@.take(i as int + 1));
            assert(out@ =~= old(out)@ + escape_string(s@.take(i as int + 1)));
        }
        i = i + 1;
    }
    proof {
        assert(s@.take(n as int) =~= s@);
    }
}

/// Skipping whitespace leaves a text whole when none leads it.
proof fn lemma_skip_ws_nows(s: Seq<char>)
    requires
        s.len() == 0 || !is_json_ws(s[0]),
    ensures
        skip_json_ws(s) == s,
{
}

/// A hexadecimal digit reads back as its value.
proof fn lemma_hex_digit_val(k: int)
    requires
        0 <= k < 16,
    ensures
        hex_val(hex_digit(k)) == Some(k as u32),
{
}

/// Escaping text that needs no escape leaves it whole.
proof fn lemma_escape_plain(t: Seq<char>)
    requires
        forall|i: int|
            0 <= i < t.len() ==> (t[i] != '"' && t[i] != '\\' && (t[i] as u32) >= 0x20),
    ensures
        escape_string(t) == t,
    decreases t.len(),
{
    if t.len() == 0 {
        assert(t =~= Seq::<char>::empty());
    } else {
        assert(escape_char(t[0]) == seq![t[0]]);
        assert forall|i: int| 0 <= i < t.drop_first().len() implies (t.drop_first()[i] != '"'
            && t.drop_first()[i] != '\\' && (t.drop_first()[i] as u32) >= 0x20) by {
            assert(t.drop_first()[i] == t[i + 1]);
        }
        lemma_escape_plain(t.drop_first());
        assert(seq![t[0]] + t.drop_first() =~= t);
    }
}

/// An escaped string body followed by its closing quote parses back to the
/// original text, leaving the rest untouched.
proof fn lemma_parse_escape(t: Seq<char>, rest: Seq<char>)
    ensures
        parse_string_body(escape_string(t) + seq!['"'] + rest) == Some((t, rest)),
    decreases t.len(),
{
    let s = escape_string(t) + seq!['"'] + rest;
    if t.len() == 0 {
        assert(s =~= seq!['"'] + rest);
        assert(s[0] == '"');
        assert(s.drop_first() =~= rest);
        assert(Seq::<char>::empty() =~= t);
    } else {
        let c = t[0];
        let e = escape_char(c);
        let t2 = t.drop_first();
        lemma_parse_escape(t2, rest);
        let tail = escape_string(t2) + seq!['"'] + rest;
        assert(escape_string(t) == e + escape_string(t2));
        assert(s =~= e + tail);
        assert(tail.len() >= 1);
        if c == '"' || c == '\\' || c == '\n' || c == '\r' || c == '\t' {
            assert(e.len() == 2);
            assert(s[0] == '\\');
            assert(s[1] == e[1]);
            assert(unescape_short(e[1]) == Some(c));
            assert(s.skip(2) =~= tail);
            assert(seq![c] + t2 =~= t);
        } else if (c as u32) < 0x20 {
            let cu = c as u32;
            assert(e == seq!['\\', 'u', '0', '0', hex_digit(cu as int / 16), hex_digit(
                cu as int % 16,
            )]);
            assert(s[0] == '\\');
            assert(s[1] == 'u');
            assert(s.len() >= 7);
            assert(s[2] == '0');
            assert(s[3] == '0');
            assert(s[4] == hex_digit(cu as int / 16));
            assert(s[5] == hex_digit(cu as int % 16));
            lemma_hex_digit_val(cu as int / 16);
            lemma_hex_digit_val(cu as int % 16);
            let v = hex4(s[2], s[3], s[4], s[5]);
            assert(v == Some((((cu as int / 16) * 16 + cu as int % 16)) as u32));
            assert((cu as int / 16) * 16 + cu as int % 16 == cu as int);
            assert(v == Some(cu));
            vstd::utf8::char_u32_cast(c, cu);
            assert(s.skip(6) =~= tail);
            assert(seq![c] + t2 =~= t);
        } else {
            assert(e == seq![c]);
            assert(s[0] == c);
            assert(s.drop_first() =~= tail);
            assert(seq![c] + t2 =~= t);
        }
    }
}

/// The keys of the schema need no escaping.
proof fn lemma_keys_plain()
    ensures
        escape_string(title_key()) == title_key(),
        escape_string(description_key()) == description_key(),
{
    let tk = title_key();
    assert(tk[0] == 't' && tk[1] == 'i' && tk[2] == 't' && tk[3] == 'l' && tk[4] == 'e');
    assert forall|i: int| 0 <= i < tk.len() implies (tk[i] != '"' && tk[i] != '\\' && (tk[i]
        as u32) >= 0x20) by {
        assert(tk.len() == 5);
    }
    lemma_escape_plain(tk);
    let dk = description_key();
    assert(dk[0] == 'd' && dk[1] == 'e' && dk[2] == 's' && dk[3] == 'c' && dk[4] == 'r' && dk[5]
        == 'i' && dk[6] == 'p' && dk[7] == 't' && dk[8] == 'i' && dk[9] == 'o' && dk[10] == 'n');
    assert forall|i: int| 0 <= i < dk.len() implies (dk[i] != '"' && dk[i] != '\\' && (dk[i]
        as u32) >= 0x20) by {
        assert(dk.len() == 11);
    }
    lemma_escape_plain(dk);
}

/// A proposal round-trips through its schema: encoding a title and a
/// description and parsing the result back yields the original pair, for any
/// non-empty title and any description.
#[verifier::rlimit(100)]
#[verifier::spinoff_prover]
pub proof fn lemma_proposal_roundtrip(title: Seq<char>, description: Seq<char>)
    requires
        title.len() > 0,
    ensures
        spec_parse_proposal(spec_encode_proposal(title, description)) == Some(
            (title, description),
        ),
{
    reveal_strlit("{\"title\":\"");
    reveal_strlit("\",\"description\":\"");
    reveal_strlit("\"}");
    let lead = "{\"title\":\""@;
    assert(lead =~= seq!['{', '"', 't', 'i', 't', 'l', 'e', '"', ':', '"']);
    let mid = "\",\"description\":\""@;
    assert(mid =~= seq![
        '"',
        ',',
        '"',
        'd',
        'e',
        's',
        'c',
        'r',
        'i',
        'p',
        't',
        'i',
        'o',
        'n',
        '"',
        ':',
        '"',
    ]);
    let tail = "\"}"@;
    assert(tail =~= seq!['"', '}']);
    lemma_keys_plain();
    let et = escape_string(title);
    let ed = escape_string(description);
    let enc = spec_encode_proposal(title, description);
    assert(enc == lead + et + mid + ed + tail);

    // The object opens immediately.
    assert(enc[0] == '{');
    lemma_skip_ws_nows(enc);

    // The first member: the title key, a colon, the escaped title.
    let m1_in = enc.drop_first();
    assert(m1_in[0] == '"');
    lemma_skip_ws_nows(m1_in);
    let kb1 = m1_in.drop_first();
    let rest1 = seq![':', '"'] + et + (mid + ed + tail);
    assert(kb1 =~= title_key() + seq!['"'] + rest1);
    lemma_parse_escape(title_key(), rest1);
    assert(rest1[0] == ':');
    lemma_skip_ws_nows(rest1);
    let q1 = rest1.drop_first();
    assert(q1 =~= seq!['"'] + (et + (mid + ed + tail)));
    assert(q1[0] == '"');
    lemma_skip_ws_nows(q1);
    let mid1 = mid.drop_first();
    let vb1 = q1.drop_first();
    assert(vb1 =~= et + seq!['"'] + (mid1 + ed + tail));
    lemma_parse_escape(title, mid1 + ed + tail);
    assert(parse_member(m1_in) == Some((title_key(), title, mid1 + ed + tail)));

    // The comma between the members.
    let r1 = mid1 + ed + tail;
    assert(r1[0] == ',');
    lemma_skip_ws_nows(r1);

    // The second member: the description key, a colon, the escaped text.
    let m2_in = r1.drop_first();
    assert(m2_in =~= seq!['"'] + (description_key() + seq!['"'] + (seq![':', '"'] + ed + tail)));
    assert(m2_in[0] == '"');
    lemma_skip_ws_nows(m2_in);
    let kb2 = m2_in.drop_first();
    let rest2 = seq![':', '"'] + ed + tail;
    assert(kb2 =~= description_key() + seq!['"'] + rest2);
    lemma_parse_escape(description_key(), rest2);
    assert(rest2[0] == ':');
    lemma_skip_ws_nows(rest2);
    let q2 = rest2.drop_first();
    assert(q2 =~= seq!['"'] + (ed + tail));
    assert(q2[0] == '"');
    lemma_skip_ws_nows(q2);
    let vb2 = q2.drop_first();
    assert(vb2 =~= ed + seq!['"'] + seq!['}']);
    lemma_parse_escape(description, seq!['}']);
    assert(parse_member(m2_in) == Some((description_key(), description, seq!['}'])));

    // The object closes and nothing follows.
    let r2 = seq!['}'];
    assert(r2[0] == '}');
    lemma_skip_ws_nows(r2);
    assert(r2.drop_first() =~= Seq::<char>::empty());
    assert(skip_json_ws(Seq::<char>::empty()).len() == 0);
    assert(title_key() != description_key());
}

/// The value of a hexadecimal digit, equal to the spec value.
fn hex_val_exec(c: char) -> (r: Option<u32>)
    ensures
        r == hex_val(c),
{
    if c == '0' {
        Some(0u32)
    } else if c == '1' {
        Some(1u32)
    } else if c == '2' {
        Some(2u32)
    } else if c == '3' {
        Some(3u32)
    } else if c == '4' {
        Some(4u32)
    } else if c == '5' {
        Some(5u32)
    } else if c == '6' {
        Some(6u32)
    } else if c == '7' {
        Some(7u32)
    } else if c == '8' {
        Some(8u32)
    } else if c == '9' {
        Some(9u32)
    } else if c == 'a' || c == 'A' {
        Some(10u32)
    } else if c == 'b' || c == 'B' {
        Some(11u32)
    } else if c == 'c' || c == 'C' {
        Some(12u32)
    } else if c == 'd' || c == 'D' {
        Some(13u32)
    } else if c == 'e' || c == 'E' {
        Some(14u32)
    } else if c == 'f' || c == 'F' {
        Some(15u32)
    } else {
        None
    }
}

/// The value of four hexadecimal digits, equal to the spec value.
fn hex4_exec(a: char, b: char, c: char, d: char) -> (r: Option<u32>)
    ensures
        r == hex4(a, b, c, d),
{
    match (hex_val_exec(a), hex_val_exec(b), hex_val_exec(c), hex_val_exec(d)) {
        (Some(x), Some(y), Some(z), Some(w)) => Some(x * 4096 + y * 256 + z * 16 + w),
        _ => None,
    }
}

/// The short escape decoding, equal to the spec one.
fn unescape_short_exec(e: char) -> (r: Option<char>)
    ensures
        r == unescape_short(e),
{
    if e == '"' {
        Some('"')
    } else if e == '\\' {
        Some('\\')
    } else if e == '/' {
        Some('/')
    } else if e == 'n' {
        Some('\n')
    } else if e == 'r' {
        Some('\r')
    } else if e == 't' {
        Some('\t')
    } else if e == 'b' {
        Some('\u{0008}')
    } else if e == 'f' {
        Some('\u{000C}')
    } else {
        None
    }
}

/// JSON whitespace test, equal to the spec one.
fn json_ws_char(c: char) -> (r: bool)
    ensures
        r == is_json_ws(c),
{
    c == ' ' || c == '\t' || c == '\n' || c == '\r'
}

/// Advances past JSON whitespace: the suffix at the returned index is the
/// spec-level skip of the suffix at the given one.
fn skip_ws_exec(v: &Vec<char>, start: usize) -> (j: usize)
    requires
        start <= v@.len(),
    ensures
        start <= j <= v@.len(),
        v@.skip(j as int) == skip_json_ws(v@.skip(start as int)),
        j < v@.len() ==> !is_json_ws(v@[j as int]),
{
    let n = v.len();
    let mut j = start;
    while j < n && json_ws_char(v[j])
        invariant
            start <= j <= n,
            n == v@.len(),
            skip_json_ws(v@.skip(start as int)) == skip_json_ws(v@.skip(j as int)),
        decreases n - j,
    {
        proof {
            assert(v@.skip(j as int)[0] == v@[j as int]);
            assert(v@.skip(j as int).drop_first() =~= v@.skip(j as int + 1));
        }
        j = j + 1;
    }
    proof {
        if j < n {
            assert(v@.skip(j as int)[0] == v@[j as int]);
        }
        assert(skip_json_ws(v@.skip(j as int)) == v@.skip(j as int));
    }
    j
}

/// Prepending a decoded character to a parse result is the same as pushing it
/// onto the accumulator first.
proof fn lemma_acc_step(acc0: Seq<char>, x: char, pr: Option<(Seq<char>, Seq<char>)>)
    ensures
        (match pr {
            Some(p) => Some((acc0 + (seq![x] + p.0), p.1)),
            None => None::<(Seq<char>, Seq<char>)>,
        }) == (match pr {
            Some(p) => Some(((acc0 + seq![x]) + p.0, p.1)),
            None => None::<(Seq<char>, Seq<char>)>,
        }),
{
    match pr {
        Some(p) => {
            assert(acc0 + (seq![x] + p.0) =~= (acc0 + seq![x]) + p.0);
        },
        None => {},
    }
}

/// Parses a JSON string body starting at `start` (the opening quote already
/// consumed), mirroring the spec parser on the suffix.
fn parse_string_body_exec(v: &Vec<char>, start: usize) -> (r: Option<(Vec<char>, usize)>)
    requires
        start <= v@.len(),
    ensures
        match r {
            Some(p) => p.1 <= v@.len() && parse_string_body(v@.skip(start as int)) == Some(
                (p.0@, v@.skip(p.1 as int)),
            ),
            None => parse_string_body(v@.skip(start as int)) is None,
        },
{
    let n = v.len();
    let mut acc: Vec<char> = Vec::new();
    let mut i = start;
    loop
        invariant
            start <= i <= n,
            n == v@.len(),
            parse_string_body(v@.skip(start as int)) == (match parse_string_body(
                v@.skip(i as int),
            ) {
                Some(p) => Some((acc@ + p.0, p.1)),
                None => None::<(Seq<char>, Seq<char>)>,
            }),
        decreases n - i,
    {
        if i == n {
            return None;
        }
        let ghost s = v@.skip(i as int);
        proof {
            assert(s[0] == v@[i as int]);
            assert(s.len() == n - i);
        }
        let c = v[i];
        if c == '"' {
            proof {
                assert(s.drop_first() =~= v@.skip(i as int + 1));
                assert(acc@ + Seq::<char>::empty() =~= acc@);
            }
            return Some((acc, i + 1));
        } else if c == '\\' {
            if n - i < 2 {
                return None;
            }
            let e = v[i + 1];
            proof {
                assert(s[1] == v@[i as int + 1]);
            }
            if e == 'u' {
                if n - i < 6 {
                    return None;
                }
                proof {
                    assert(s[2] == v@[i as int + 2]);
                    assert(s[3] == v@[i as int + 3]);
                    assert(s[4] == v@[i as int + 4]);
                    assert(s[5] == v@[i as int + 5]);
                }
                match hex4_exec(v[i + 2], v[i + 3], v[i + 4], v[i + 5]) {
                    None => {
                        return None;
                    },
                    Some(val) => {
                        if 0xD800 <= val && val < 0xDC00 {
                            if n - i >= 12 && v[i + 6] == '\\' && v[i + 7] == 'u' {
                                proof {
                                    assert(s[6] == v@[i as int + 6]);
                                    assert(s[7] == v@[i as int + 7]);
                                    assert(s[8] == v@[i as int + 8]);
                                    assert(s[9] == v@[i as int + 9]);
                                    assert(s[10] == v@[i as int + 10]);
                                    assert(s[11] == v@[i as int + 11]);
                                }
                                match hex4_exec(v[i + 8], v[i + 9], v[i + 10], v[i + 11]) {
                                    None => {
                                        return None;
                                    },
                                    Some(w) => {
                                        if 0xDC00 <= w && w < 0xE000 {
                                            let u: u32 = 0x10000 + (val - 0xD800) * 0x400 + (w
                                                - 0xDC00);
                                            let ch = match crate::strutil::char_from_u32(u) {
                                                Some(ch) => ch,
                                                None => {
                                                    proof {
                                                        assert(vstd::utf8::is_scalar(u));
                                                        assert(false);
                                                    }
                                                    return None;
                                                },
                                            };
                                            let ghost acc0 = acc@;
                                            acc.push(ch);
                                            proof {
                                                assert(s.skip(12) =~= v@.skip(i as int + 12));
                                                assert(acc@ =~= acc0 + seq![ch]);
                                                lemma_acc_step(
                                                    acc0,
                                                    ch,
                                                    parse_string_body(v@.skip(i as int + 12)),
                                                );
                                            }
                                            i = i + 12;
                                        } else {
                                            return None;
                                        }
                                    },
                                }
                            } else {
                                return None;
                            }
                        } else if 0xDC00 <= val && val < 0xE000 {
                            return None;
                        } else {
                            let ch = match crate::strutil::char_from_u32(val) {
                                Some(ch) => ch,
                                None => {
                                    proof {
                                        assert(vstd::utf8::is_scalar(val));
                                        assert(false);
                                    }
                                    return None;
                                },
                            };
                            let ghost acc0 = acc@;
                            acc.push(ch);
                            proof {
                                assert(s.skip(6) =~= v@.skip(i as int + 6));
                                assert(acc@ =~= acc0 + seq![ch]);
                                lemma_acc_step(acc0, ch, parse_string_body(v@.skip(i as int + 6)));
                            }
                            i = i + 6;
                        }
                    },
                }
            } else {
                match unescape_short_exec(e) {
                    None => {
                        return None;
                    },
                    Some(c2) => {
                        let ghost acc0 = acc@;
                        acc.push(c2);
                        proof {
                            assert(s.skip(2) =~= v@.skip(i as int + 2));
                            assert(acc@ =~= acc0 + seq![c2]);
                            lemma_acc_step(acc0, c2, parse_string_body(v@.skip(i as int + 2)));
                        }
                        i = i + 2;
                    },
                }
            }
        } else if (c as u32) < 0x20 {
            return None;
        } else {
            let ghost acc0 = acc@;
            acc.push(c);
            proof {
                assert(s.drop_first() =~= v@.skip(i as int + 1));
                assert(acc@ =~= acc0 + seq![c]);
                lemma_acc_step(acc0, c, parse_string_body(v@.skip(i as int + 1)));
            }
            i = i + 1;
        }
    }
}

/// Parses one member starting at `start`, mirroring the spec member parser on
/// the suffix.
fn parse_member_exec(v: &Vec<char>, start: usize) -> (r: Option<(Vec<char>, Vec<char>, usize)>)
    requires
        start <= v@.len(),
    ensures
        match r {
            Some(m) => m.2 <= v@.len() && parse_member(v@.skip(start as int)) == Some(
                (m.0@, m.1@, v@.skip(m.2 as int)),
            ),
            None => parse_member(v@.skip(start as int)) is None,
        },
{
    let n = v.len();
    let j0 = skip_ws_exec(v, start);
    let ghost s0 = skip_json_ws(v@.skip(start as int));
    if j0 == n {
        return None;
    }
    proof {
        assert(s0[0] == v@[j0 as int]);
    }
    if v[j0] != '"' {
        return None;
    }
    proof {
        assert(s0.drop_first() =~= v@.skip(j0 as int + 1));
    }
    match parse_string_body_exec(v, j0 + 1) {
        None => None,
        Some((k, r1)) => {
            let j1 = skip_ws_exec(v, r1);
            let ghost s1 = skip_json_ws(v@.skip(r1 as int));
            if j1 == n {
                return None;
            }
            proof {
                assert(s1[0] == v@[j1 as int]);
            }
            if v[j1] != ':' {
                return None;
            }
            proof {
                assert(s1.drop_first() =~= v@.skip(j1 as int + 1));
            }
            let j2 = skip_ws_exec(v, j1 + 1);
            let ghost s2 = skip_json_ws(v@.skip(j1 as int + 1));
            if j2 == n {
                return None;
            }
            proof {
                assert(s2[0] == v@[j2 as int]);
            }
            if v[j2] != '"' {
                return None;
            }
            proof {
                assert(s2.drop_first() =~= v@.skip(j2 as int + 1));
            }
            match parse_string_body_exec(v, j2 + 1) {
                None => None,
                Some((val, r2)) => Some((k, val, r2)),
            }
        },
    }
}

/// Whether the characters spell the `title` key.
fn is_title_key(k: &Vec<char>) -> (r: bool)
    ensures
        r == (k@ == title_key()),
{
    if k.len() != 5 {
        proof {
            if k@ == title_key() {
                assert(k@.len() == 5);
            }
        }
        return false;
    }
    let r = k[0] == 't' && k[1] == 'i' && k[2] == 't' && k[3] == 'l' && k[4] == 'e';
    proof {
        if r {
            assert(k@ =~= title_key());
        } else {
            if k@ == title_key() {
                assert(k@[0] == 't' && k@[1] == 'i' && k@[2] == 't' && k@[3] == 'l' && k@[4]
                    == 'e');
            }
        }
    }
    r
}

/// Whether the characters spell the `description` key.
fn is_description_key(k: &Vec<char>) -> (r: bool)
    ensures
        r == (k@ == description_key()),
{
    if k.len() != 11 {
        proof {
            if k@ == description_key() {
                assert(k@.len() == 11);
            }
        }
        return false;
    }
    let r = k[0] == 'd' && k[1] == 'e' && k[2] == 's' && k[3] == 'c' && k[4] == 'r' && k[5] == 'i'
        && k[6] == 'p' && k[7] == 't' && k[8] == 'i' && k[9] == 'o' && k[10] == 'n';
    proof {
        if r {
            assert(k@ =~= description_key());
        } else {
            if k@ == description_key() {
                assert(k@[0] == 'd' && k@[1] == 'e' && k@[2] == 's' && k@[3] == 'c' && k@[4] == 'r'
                    && k@[5] == 'i' && k@[6] == 'p' && k@[7] == 't' && k@[8] == 'i' && k@[9] == 'o'
                    && k@[10] == 'n');
            }
        }
    }
    r
}

/// Parses an argument payload against the commit schema, yielding a proposal
/// exactly when the spec parser accepts it.
pub fn parse_proposal_json(args: &str) -> (r: Option<CommitProposal>)
    ensures
        match r {
            Some(p) => spec_parse_proposal(args@) == Some((p.title@, p.description@)) && p.title@.len()
                > 0,
            None => spec_parse_proposal(args@) is None,
        },
{
    let v = crate::strutil::str_chars(args);
    let n = v.len();
    proof {
        assert(v@.skip(0) =~= args@);
    }
    let j0 = skip_ws_exec(&v, 0);
    let ghost s0 = skip_json_ws(args@);
    if j0 == n {
        return None;
    }
    proof {
        assert(s0[0] == v@[j0 as int]);
    }
    if v[j0] != '{' {
        return None;
    }
    proof {
        assert(s0.drop_first() =~= v@.skip(j0 as int + 1));
    }
    match parse_member_exec(&v, j0 + 1) {
        None => None,
        Some((k1, v1, r1)) => {
            let j1 = skip_ws_exec(&v, r1);
            let ghost s1 = skip_json_ws(v@.skip(r1 as int));
            if j1 == n {
                return None;
            }
            proof {
                assert(s1[0] == v@[j1 as int]);
            }
            if v[j1] != ',' {
                return None;
            }
            proof {
                assert(s1.drop_first() =~= v@.skip(j1 as int + 1));
            }
            match parse_member_exec(&v, j1 + 1) {
                None => None,
                Some((k2, v2, r2)) => {
                    let j2 = skip_ws_exec(&v, r2);
                    let ghost s2 = skip_json_ws(v@.skip(r2 as int));
                    if j2 == n {
                        return None;
                    }
                    proof {
                        assert(s2[0] == v@[j2 as int]);
                    }
                    if v[j2] != '}' {
                        return None;
                    }
                    proof {
                        assert(s2.drop_first() =~= v@.skip(j2 as int + 1));
                    }
                    let j3 = skip_ws_exec(&v, j2 + 1);
                    if j3 < n {
                        proof {
                            assert(skip_json_ws(v@.skip(j2 as int + 1)).len() == n - j3);
                        }
                        return None;
                    }
                    proof {
                        assert(v@.skip(j3 as int) =~= Seq::<char>::empty());
                    }
                    if is_title_key(&k1) && is_description_key(&k2) {
                        if v1.len() == 0 {
                            return None;
                        }
                        Some(
                            CommitProposal::new(
                                crate::strutil::chars_to_string(&v1),
                                crate::strutil::chars_to_string(&v2),
                            ),
                        )
                    } else if is_description_key(&k1) && is_title_key(&k2) {
                        if v2.len() == 0 {
                            return None;
                        }
                        Some(
                            CommitProposal::new(
                                crate::strutil::chars_to_string(&v2),
                                crate::strutil::chars_to_string(&v1),
                            ),
                        )
                    } else {
                        None
                    }
                },
            }
        },
    }
}

/// Encodes a proposal under the commit schema: the canonical two-member JSON
/// object, title first.
pub fn encode_proposal_json(p: &CommitProposal) -> (r: String)
    ensures
        r@ == spec_encode_proposal(p.title@, p.description@),
{
    let mut out = String::from_str("{\"title\":\"");
    append_escaped(&mut out, &p.title);
    out.append("\",\"description\":\"");
    append_escaped(&mut out, &p.description);
    out.append("\"}");
    out
}

} // verus!
