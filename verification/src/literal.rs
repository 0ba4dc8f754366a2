//! The quoted form of a string inside a record: how a key or a value is
//! written between double quotes, and how it is read back.

use vstd::prelude::*;
use crate::error::{KvsErrors, KvsResult};

verus! {

/// `String::push`: appends `c` to the end of `s`.
pub assume_specification[ String::push ](s: &mut String, c: char)
    ensures
        final(s)@ == old(s)@.push(c),
;

/// The lower-case hexadecimal digit for `d`, for `d` from 0 to 15.
pub open spec fn hex_digit(d: int) -> char {
    if d < 10 {
        ('0' as int + d) as char
    } else {
        ('a' as int + d - 10) as char
    }
}

/// The number that the hexadecimal digit `c` stands for, 0 where it is none.
pub open spec fn hex_value(c: char) -> int {
    if '0' <= c <= '9' {
        c as int - '0' as int
    } else if 'a' <= c <= 'f' {
        c as int - 'a' as int + 10
    } else {
        0
    }
}

/// How one character is written inside the quotes: the quote, the backslash
/// and the control characters are escaped, every other character stands for
/// itself.
pub open spec fn escape_char(c: char) -> Seq<char> {
    if c == '"' {
        seq!['\\', '"']
    } else if c == '\\' {
        seq!['\\', '\\']
    } else if c == '\u{8}' {
        seq!['\\', 'b']
    } else if c == '\u{c}' {
        seq!['\\', 'f']
    } else if c == '\n' {
        seq!['\\', 'n']
    } else if c == '\r' {
        seq!['\\', 'r']
    } else if c == '\t' {
        seq!['\\', 't']
    } else if (c as int) < 0x20 {
        seq!['\\', 'u', '0', '0', hex_digit(c as int / 16), hex_digit(c as int % 16)]
    } else {
        seq![c]
    }
}

/// The characters of `s`, each in its escaped form.
pub open spec fn escape(s: Seq<char>) -> Seq<char>
    decreases s.len(),
{
    if s.len() == 0 {
        Seq::empty()
    } else {
        escape_char(s[0]) + escape(s.drop_first())
    }
}

/// `s` as it stands in a record: escaped, between double quotes.
pub open spec fn literal(s: Seq<char>) -> Seq<char> {
    seq!['"'] + escape(s) + seq!['"']
}

/// The character whose escaped form stands at the front of `t`, and the
/// length of that form; `None` where no character is written so.
pub open spec fn unescape_front(t: Seq<char>) -> Option<(char, nat)> {
    if t.len() == 0 {
        None
    } else if t[0] == '\\' {
        if t.len() < 2 {
            None
        } else if t[1] == '"' {
            Some(('"', 2))
        } else if t[1] == '\\' {
            Some(('\\', 2))
        } else if t[1] == 'b' {
            Some(('\u{8}', 2))
        } else if t[1] == 'f' {
            Some(('\u{c}', 2))
        } else if t[1] == 'n' {
            Some(('\n', 2))
        } else if t[1] == 'r' {
            Some(('\r', 2))
        } else if t[1] == 't' {
            Some(('\t', 2))
        } else if t[1] == 'u' && t.len() >= 6 {
            let c = (hex_value(t[4]) * 16 + hex_value(t[5])) as char;
            if escape_char(c) == t.take(6) {
                Some((c, 6))
            } else {
                None
            }
        } else {
            None
        }
    } else if t[0] == '"' || (t[0] as int) < 0x20 {
        None
    } else {
        Some((t[0], 1))
    }
}

/// Reads escaped characters from the front of `t` up to the closing quote:
/// the characters they stand for, and how much of `t` was read, the quote
/// included. `None` where `t` does not begin so.
pub open spec fn parse_body(t: Seq<char>) -> Option<(Seq<char>, nat)>
    decreases t.len(),
{
    if t.len() == 0 {
        None
    } else if t[0] == '"' {
        Some((Seq::empty(), 1))
    } else {
        match unescape_front(t) {
            None => None,
            Some((c, n)) => match parse_body(t.skip(n as int)) {
                None => None,
                Some((s, m)) => Some((seq![c] + s, n + m)),
            },
        }
    }
}

/// Reads a quoted string from the front of `t`: the string it stands for,
/// and how much of `t` was read, both quotes included. `None` where `t` does
/// not begin with a quoted string.
pub open spec fn parse_literal(t: Seq<char>) -> Option<(Seq<char>, nat)> {
    if t.len() > 0 && t[0] == '"' {
        match parse_body(t.skip(1)) {
            None => None,
            Some((s, n)) => Some((s, n + 1)),
        }
    } else {
        None
    }
}

/// Puts `acc` in front of what was read and adds `k` to how much was read.
spec fn prepend(acc: Seq<char>, k: nat, r: Option<(Seq<char>, nat)>) -> Option<
    (Seq<char>, nat),
> {
    match r {
        None => None,
        Some((s, n)) => Some((acc + s, k + n)),
    }
}

/// What `unescape_front` reads is the escaped form of the character it gives.
pub proof fn lemma_unescape_front_sound(t: Seq<char>)
    requires
        unescape_front(t) is Some,
    ensures
        1 <= unescape_front(t)->Some_0.1 <= t.len(),
        t.take(unescape_front(t)->Some_0.1 as int) == escape_char(unescape_front(t)->Some_0.0),
{
}

/// The escaped form of a character is read back as that character, whatever
/// follows it, and does not begin with a double quote.
pub proof fn lemma_unescape_front_complete(c: char, rest: Seq<char>)
    ensures
        unescape_front(escape_char(c) + rest) == Some((c, escape_char(c).len())),
        (escape_char(c) + rest)[0] != '"',
{
    let t = escape_char(c) + rest;
    if (c as int) < 0x20 && c != '\u{8}' && c != '\u{c}' && c != '\n' && c != '\r' && c != '\t' {
        assert(t.take(6) =~= escape_char(c));
    }
}

/// What `parse_body` reads is the escaped form of the string it gives,
/// followed by a double quote.
pub proof fn lemma_parse_body_sound(t: Seq<char>)
    requires
        parse_body(t) is Some,
    ensures
        1 <= parse_body(t)->Some_0.1 <= t.len(),
        t.take(parse_body(t)->Some_0.1 as int) == escape(parse_body(t)->Some_0.0) + seq!['"'],
    decreases t.len(),
{
    if t[0] != '"' {
        let (s, k) = parse_body(t)->Some_0;
        let n = unescape_front(t)->Some_0.1;
        lemma_unescape_front_sound(t);
        let rest = t.skip(n as int);
        lemma_parse_body_sound(rest);
        let (s1, m) = parse_body(rest)->Some_0;
        assert(s.drop_first() =~= s1);
        assert(t.take(k as int) =~= t.take(n as int) + rest.take(m as int));
    }
}

/// The escaped form of a string, closed by a double quote, is read back as
/// that string, whatever follows the quote.
pub proof fn lemma_parse_body_complete(s: Seq<char>, rest: Seq<char>)
    ensures
        parse_body(escape(s) + seq!['"'] + rest) == Some((s, (escape(s).len() + 1) as nat)),
    decreases s.len(),
{
    let t = escape(s) + seq!['"'] + rest;
    if s.len() > 0 {
        let c = s[0];
        let s1 = s.drop_first();
        let tail = escape(s1) + seq!['"'] + rest;
        assert(t =~= escape_char(c) + tail);
        lemma_unescape_front_complete(c, tail);
        let n = escape_char(c).len();
        assert(t.skip(n as int) =~= tail);
        lemma_parse_body_complete(s1, rest);
    }
}

/// What `parse_literal` reads is the quoted form of the string it gives.
pub proof fn lemma_parse_literal_sound(t: Seq<char>)
    requires
        parse_literal(t) is Some,
    ensures
        2 <= parse_literal(t)->Some_0.1 <= t.len(),
        t.take(parse_literal(t)->Some_0.1 as int) == literal(parse_literal(t)->Some_0.0),
{
    let n = parse_literal(t)->Some_0.1;
    lemma_parse_body_sound(t.skip(1));
    assert(t.take(n as int) =~= seq!['"'] + t.skip(1).take(n - 1));
}

/// The quoted form of a string is read back as that string, whatever follows
/// it.
pub proof fn lemma_parse_literal_complete(s: Seq<char>, rest: Seq<char>)
    ensures
        parse_literal(literal(s) + rest) == Some((s, literal(s).len())),
{
    let t = literal(s) + rest;
    assert(t.skip(1) =~= escape(s) + seq!['"'] + rest);
    lemma_parse_body_complete(s, rest);
}

/// The escaped form of a character holds no control character.
pub proof fn lemma_escape_char_printable(c: char)
    ensures
        forall|i: int| 0 <= i < escape_char(c).len() ==> (#[trigger] escape_char(c)[i]) as int >= 0x20,
{
}

/// The escaped form of a string holds no control character: no line feed in
/// particular.
pub proof fn lemma_escape_printable(s: Seq<char>)
    ensures
        forall|i: int| 0 <= i < escape(s).len() ==> (#[trigger] escape(s)[i]) as int >= 0x20,
    decreases s.len(),
{
    if s.len() > 0 {
        let head = escape_char(s[0]);
        let tail = escape(s.drop_first());
        lemma_escape_printable(s.drop_first());
        lemma_escape_char_printable(s[0]);
        assert forall|i: int| 0 <= i < escape(s).len() implies (#[trigger] escape(s)[i]) as int
            >= 0x20 by {
            if i < head.len() {
                assert(escape(s)[i] == head[i]);
            } else {
                assert(escape(s)[i] == tail[i - head.len()]);
            }
        }
    }
}

/// `serde_json::to_string` on a `str`. It writes the string between double
/// quotes; inside them a double quote and a backslash get a backslash in
/// front, the control characters below U+0020 become `\b`, `\t`, `\n`, `\f`,
/// `\r` or `\u00` and two lower-case hexadecimal digits, and every other
/// character is copied. It fails only where a `Serialize` impl fails or a
/// map has a key that is no string, and a `str` is neither.
#[verifier::external_body]
fn json_string(s: &str) -> (r: Result<String, serde_json::Error>)
    ensures
        r is Ok,
        r is Ok ==> r->Ok_0@ == literal(s@),
{
    serde_json::to_string(s)
}

/// `s` as it stands in a record: escaped, between double quotes.
pub fn quote(s: &str) -> (r: KvsResult<String>)
    ensures
        r is Ok,
        r->Ok_0@ == literal(s@),
{
    match json_string(s) {
        Ok(text) => Ok(text),
        Err(e) => Err(KvsErrors::from(e)),
    }
}

/// The number that the hexadecimal digit `c` stands for.
fn hex_number(c: char) -> (n: Option<u8>)
    ensures
        match n {
            Some(v) => v < 16 && hex_digit(v as int) == c && hex_value(c) == v,
            None => forall|d: int| 0 <= d < 16 ==> hex_digit(d) != c,
        },
{
    if '0' <= c && c <= '9' {
        Some((c as u32 - '0' as u32) as u8)
    } else if 'a' <= c && c <= 'f' {
        Some((c as u32 - 'a' as u32 + 10) as u8)
    } else {
        None
    }
}

/// Reads one escaped character of `s` at index `i`: the character, and the
/// index behind its escaped form.
fn read_char(s: &[char], i: usize) -> (r: Option<(char, usize)>)
    requires
        i <= s.len(),
    ensures
        match unescape_front(s@.skip(i as int)) {
            Some((c, n)) => r == Some((c, (i + n) as usize)) && i + n <= s.len(),
            None => r is None,
        },
{
    let ghost t = s@.skip(i as int);
    if i >= s.len() {
        return None;
    }
    let c = s[i];
    if c == '\\' {
        if s.len() - i < 2 {
            return None;
        }
        let d = s[i + 1];
        if d == '"' {
            Some(('"', i + 2))
        } else if d == '\\' {
            Some(('\\', i + 2))
        } else if d == 'b' {
            Some(('\u{8}', i + 2))
        } else if d == 'f' {
            Some(('\u{c}', i + 2))
        } else if d == 'n' {
            Some(('\n', i + 2))
        } else if d == 'r' {
            Some(('\r', i + 2))
        } else if d == 't' {
            Some(('\t', i + 2))
        } else if d == 'u' && s.len() - i >= 6 {
            proof {
                // Only a control character without a short form is written
                // with six characters.
                let x = (hex_value(t[4]) * 16 + hex_value(t[5])) as char;
                if escape_char(x) == t.take(6) {
                    assert(escape_char(x).len() == 6);
                }
            }
            if s[i + 2] != '0' || s[i + 3] != '0' {
                return None;
            }
            match (hex_number(s[i + 4]), hex_number(s[i + 5])) {
                (Some(high), Some(low)) => {
                    let v: u8 = high * 16 + low;
                    let x = v as char;
                    if high < 2 && x != '\u{8}' && x != '\u{c}' && x != '\n' && x != '\r' && x
                        != '\t' {
                        assert(escape_char(x) =~= t.take(6));
                        Some((x, i + 6))
                    } else {
                        None
                    }
                },
                _ => None,
            }
        } else {
            None
        }
    } else if c == '"' || c <= '\u{1f}' {
        None
    } else {
        Some((c, i + 1))
    }
}

/// Reads escaped characters of `s` from index `start` up to the closing
/// quote: the string they stand for, and the index behind the quote.
fn read_body(s: &[char], start: usize) -> (r: Option<(String, usize)>)
    requires
        start <= s.len(),
    ensures
        match parse_body(s@.skip(start as int)) {
            Some((text, n)) => r is Some && r->Some_0.0@ == text && r->Some_0.1 == start + n
                && start + n <= s.len(),
            None => r is None,
        },
{
    let mut out = String::new();
    let mut i: usize = start;
    loop
        invariant
            start <= i <= s.len(),
            parse_body(s@.skip(start as int)) == prepend(
                out@,
                (i - start) as nat,
                parse_body(s@.skip(i as int)),
            ),
        decreases s.len() - i,
    {
        let ghost t = s@.skip(i as int);
        if i >= s.len() {
            return None;
        }
        if s[i] == '"' {
            return Some((out, i + 1));
        }
        match read_char(s, i) {
            None => {
                return None;
            },
            Some((c, next)) => {
                assert(t.skip(next - i) =~= s@.skip(next as int));
                out.push(c);
                i = next;
            },
        }
    }
}

/// Reads a quoted string of `s` at index `start`: the string it stands for,
/// and the index behind its closing quote.
pub(crate) fn read_literal(s: &[char], start: usize) -> (r: Option<(String, usize)>)
    requires
        start <= s.len(),
    ensures
        match parse_literal(s@.skip(start as int)) {
            Some((text, n)) => r is Some && r->Some_0.0@ == text && r->Some_0.1 == start + n
                && start + n <= s.len(),
            None => r is None,
        },
{
    if start < s.len() && s[start] == '"' {
        assert(s@.skip(start as int).skip(1) =~= s@.skip(start + 1));
        read_body(s, start + 1)
    } else {
        None
    }
}

} // verus!
