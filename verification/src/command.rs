//! The command record: one mutation of the store, and its text in the log.

use vstd::prelude::*;
use crate::error::{KvsErrors, KvsResult, malformed};
use crate::literal::{
    escape, lemma_escape_printable, lemma_parse_literal_complete, lemma_parse_literal_sound,
    literal, parse_literal, quote, read_literal,
};
use crate::text::{lemma_matches_at_skip, matches_at, skip_text, to_chars, trim, trim_slice};

verus! {

/// One mutation of the store.
#[derive(Debug, PartialEq, Eq)]
pub enum Command {
    /// Gives `key` the value `value`. The log calls it `Set`.
    Put { key: String, value: String },
    /// Takes `key` out of the store.
    Remove { key: String },
}

/// A command as contracts see it: its strings as sequences of characters.
pub enum Record {
    /// Gives `key` the value `value`.
    Put { key: Seq<char>, value: Seq<char> },
    /// Takes `key` out of the store.
    Remove { key: Seq<char> },
}

impl View for Command {
    type V = Record;

    open spec fn view(&self) -> Record {
        match self {
            Command::Put { key, value } => Record::Put { key: key@, value: value@ },
            Command::Remove { key } => Record::Remove { key: key@ },
        }
    }
}

/// How the text of a `Put` record begins; the log names it `Set`.
pub open spec fn put_open() -> Seq<char> {
    "{\"Set\":{\"key\":"@
}

/// What stands between the key and the value of a `Put` record.
pub open spec fn value_open() -> Seq<char> {
    ",\"value\":"@
}

/// How the text of a `Remove` record begins.
pub open spec fn remove_open() -> Seq<char> {
    "{\"Remove\":{\"key\":"@
}

/// How the text of a record ends.
pub open spec fn close() -> Seq<char> {
    "}}"@
}

/// The text of a record in the log, without the line feed behind it.
pub open spec fn record_text(r: Record) -> Seq<char> {
    match r {
        Record::Put { key, value } => put_open() + literal(key) + value_open() + literal(value)
            + close(),
        Record::Remove { key } => remove_open() + literal(key) + close(),
    }
}

/// The record whose text is `t`; `None` where `t` is the text of no record.
pub open spec fn record_of(t: Seq<char>) -> Option<Record> {
    if exists|r: Record| #[trigger] record_text(r) == t {
        Some(choose|r: Record| #[trigger] record_text(r) == t)
    } else {
        None
    }
}

/// Reads what follows the opening of a `Put` record.
pub open spec fn parse_put_fields(t: Seq<char>) -> Option<Record> {
    match parse_literal(t) {
        None => None,
        Some((key, n)) => {
            let after_key = t.skip(n as int);
            if matches_at(after_key, 0, value_open()) {
                let from_value = after_key.skip(value_open().len() as int);
                match parse_literal(from_value) {
                    None => None,
                    Some((value, m)) => if from_value.skip(m as int) == close() {
                        Some(Record::Put { key, value })
                    } else {
                        None
                    },
                }
            } else {
                None
            }
        },
    }
}

/// Reads what follows the opening of a `Remove` record.
pub open spec fn parse_remove_fields(t: Seq<char>) -> Option<Record> {
    match parse_literal(t) {
        None => None,
        Some((key, n)) => if t.skip(n as int) == close() {
            Some(Record::Remove { key })
        } else {
            None
        },
    }
}

/// Reads `t` as the text of a record, from its first character to its last.
pub open spec fn parse_record(t: Seq<char>) -> Option<Record> {
    if matches_at(t, 0, put_open()) {
        parse_put_fields(t.skip(put_open().len() as int))
    } else if matches_at(t, 0, remove_open()) {
        parse_remove_fields(t.skip(remove_open().len() as int))
    } else {
        None
    }
}

/// The fixed parts of a record's text, character by character.
pub proof fn lemma_frame()
    ensures
        put_open() == seq!['{', '"', 'S', 'e', 't', '"', ':', '{', '"', 'k', 'e', 'y', '"', ':'],
        value_open() == seq![',', '"', 'v', 'a', 'l', 'u', 'e', '"', ':'],
        remove_open() == seq![
            '{', '"', 'R', 'e', 'm', 'o', 'v', 'e', '"', ':', '{', '"', 'k', 'e', 'y', '"', ':',
        ],
        close() == seq!['}', '}'],
{
    reveal_strlit("{\"Set\":{\"key\":");
    reveal_strlit(",\"value\":");
    reveal_strlit("{\"Remove\":{\"key\":");
    reveal_strlit("}}");
}

/// A text that reads as a record is the text of that record.
pub proof fn lemma_parse_record_sound(t: Seq<char>)
    requires
        parse_record(t) is Some,
    ensures
        record_text(parse_record(t)->Some_0) == t,
{
    if matches_at(t, 0, put_open()) {
        let t1 = t.skip(put_open().len() as int);
        let (key, n) = parse_literal(t1)->Some_0;
        lemma_parse_literal_sound(t1);
        let t2 = t1.skip(n as int);
        let t3 = t2.skip(value_open().len() as int);
        let (value, m) = parse_literal(t3)->Some_0;
        lemma_parse_literal_sound(t3);
        assert(t1 =~= t1.take(n as int) + t2);
        assert(t2 =~= value_open() + t3);
        assert(t3 =~= t3.take(m as int) + t3.skip(m as int));
        assert(t =~= put_open() + t1);
        assert(t =~= put_open() + literal(key) + value_open() + literal(value) + close());
    } else {
        let t1 = t.skip(remove_open().len() as int);
        let (key, n) = parse_literal(t1)->Some_0;
        lemma_parse_literal_sound(t1);
        assert(t1 =~= t1.take(n as int) + t1.skip(n as int));
        assert(t =~= remove_open() + t1);
        assert(t =~= remove_open() + literal(key) + close());
    }
}

/// The text of a record reads as that record.
pub proof fn lemma_parse_record_complete(r: Record)
    ensures
        parse_record(record_text(r)) == Some(r),
{
    lemma_frame();
    let t = record_text(r);
    match r {
        Record::Put { key, value } => {
            let rest1 = value_open() + literal(value) + close();
            let t1 = literal(key) + rest1;
            assert(t =~= put_open() + t1);
            assert(t.subrange(0, put_open().len() as int) =~= put_open());
            assert(t.skip(put_open().len() as int) =~= t1);
            lemma_parse_literal_complete(key, rest1);
            let t2 = t1.skip(literal(key).len() as int);
            assert(t2 =~= rest1);
            assert(t2.subrange(0, value_open().len() as int) =~= value_open());
            let t3 = t2.skip(value_open().len() as int);
            assert(t3 =~= literal(value) + close());
            lemma_parse_literal_complete(value, close());
            assert(t3.skip(literal(value).len() as int) =~= close());
        },
        Record::Remove { key } => {
            let t1 = literal(key) + close();
            assert(t =~= remove_open() + t1);
            assert(t.subrange(0, remove_open().len() as int) =~= remove_open());
            assert(t[2] == 'R');
            assert(!matches_at(t, 0, put_open())) by {
                if matches_at(t, 0, put_open()) {
                    assert(t.subrange(0, put_open().len() as int)[2] == 'S');
                }
            }
            assert(t.skip(remove_open().len() as int) =~= t1);
            lemma_parse_literal_complete(key, close());
            assert(t1.skip(literal(key).len() as int) =~= close());
        },
    }
}

/// Reading a text as a record gives the record whose text it is, and fails
/// exactly where there is none.
pub proof fn lemma_parse_record_is_record_of(t: Seq<char>)
    ensures
        parse_record(t) == record_of(t),
{
    if exists|r: Record| #[trigger] record_text(r) == t {
        let r = choose|r: Record| #[trigger] record_text(r) == t;
        lemma_parse_record_complete(r);
    } else {
        if parse_record(t) is Some {
            lemma_parse_record_sound(t);
        }
    }
}

/// A text that is read as a record is the text of that record: reading and
/// writing undo each other in both directions.
pub proof fn lemma_record_of_text(t: Seq<char>)
    requires
        record_of(t) is Some,
    ensures
        record_text(record_of(t)->Some_0) == t,
{
}

/// Two records with the same text are the same record.
pub proof fn lemma_record_text_injective(a: Record, b: Record)
    requires
        record_text(a) == record_text(b),
    ensures
        a == b,
{
    lemma_parse_record_complete(a);
    lemma_parse_record_complete(b);
}

/// A record's text begins and ends with a brace, so trimming leaves it as it
/// is, and it is not empty.
pub proof fn lemma_record_text_trimmed(r: Record)
    ensures
        trim(record_text(r)) == record_text(r),
        record_text(r).len() > 0,
{
    lemma_frame();
}

/// The text of a record holds no line feed.
pub proof fn lemma_record_text_one_line(r: Record)
    ensures
        forall|i: int| 0 <= i < record_text(r).len() ==> record_text(r)[i] != '\n',
{
    lemma_frame();
    match r {
        Record::Put { key, value } => {
            lemma_escape_printable(key);
            lemma_escape_printable(value);
        },
        Record::Remove { key } => {
            lemma_escape_printable(key);
        },
    }
}

/// Writing a record and reading its text back gives the record again, for
/// every key and value: the empty string, and strings with quotes,
/// backslashes, control characters or white space in them.
pub proof fn lemma_round_trip(r: Record)
    ensures
        record_of(trim(record_text(r))) == Some(r),
{
    lemma_record_text_trimmed(r);
    lemma_parse_record_complete(r);
    lemma_parse_record_is_record_of(record_text(r));
}

/// Reads what follows the opening of a `Put` record, from index `i` of `s` to
/// its end.
fn read_put_fields(s: &[char], i: usize) -> (r: Option<Command>)
    requires
        i <= s.len(),
    ensures
        match parse_put_fields(s@.skip(i as int)) {
            Some(record) => r is Some && r->Some_0@ == record,
            None => r is None,
        },
{
    let ghost t = s@.skip(i as int);
    match read_literal(s, i) {
        None => None,
        Some((key, j)) => {
            assert(t.skip(j - i) =~= s@.skip(j as int));
            proof {
                lemma_matches_at_skip(s@, j as int, value_open());
            }
            match skip_text(s, j, ",\"value\":") {
                None => None,
                Some(k) => {
                    assert(s@.skip(j as int).skip(value_open().len() as int) =~= s@.skip(k as int));
                    match read_literal(s, k) {
                        None => None,
                        Some((value, e)) => {
                            assert(s@.skip(k as int).skip(e - k) =~= s@.skip(e as int));
                            if ends_record(s, e) {
                                Some(Command::Put { key, value })
                            } else {
                                None
                            }
                        },
                    }
                },
            }
        },
    }
}

/// Reads what follows the opening of a `Remove` record, from index `i` of `s`
/// to its end.
fn read_remove_fields(s: &[char], i: usize) -> (r: Option<Command>)
    requires
        i <= s.len(),
    ensures
        match parse_remove_fields(s@.skip(i as int)) {
            Some(record) => r is Some && r->Some_0@ == record,
            None => r is None,
        },
{
    match read_literal(s, i) {
        None => None,
        Some((key, j)) => {
            assert(s@.skip(i as int).skip(j - i) =~= s@.skip(j as int));
            if ends_record(s, j) {
                Some(Command::Remove { key })
            } else {
                None
            }
        },
    }
}

/// Whether the end of a record, and nothing else, stands in `s` from index
/// `i` on.
fn ends_record(s: &[char], i: usize) -> (b: bool)
    requires
        i <= s.len(),
    ensures
        b == (s@.skip(i as int) == close()),
{
    match skip_text(s, i, "}}") {
        Some(j) => j == s.len(),
        None => false,
    }
}

/// Reads `s` as the text of a record, from its first character to its last.
fn read_record(s: &[char]) -> (r: Option<Command>)
    ensures
        match parse_record(s@) {
            Some(record) => r is Some && r->Some_0@ == record,
            None => r is None,
        },
{
    match skip_text(s, 0, "{\"Set\":{\"key\":") {
        Some(i) => read_put_fields(s, i),
        None => match skip_text(s, 0, "{\"Remove\":{\"key\":") {
            Some(i) => read_remove_fields(s, i),
            None => None,
        },
    }
}

impl Command {
    /// The text of this command in the log, without the line feed behind it.
    pub fn encode(&self) -> (r: KvsResult<String>)
        ensures
            r is Ok,
            r->Ok_0@ == record_text(self@),
    {
        match self {
            Command::Put { key, value } => {
                let key_text = quote(key.as_str())?;
                let value_text = quote(value.as_str())?;
                let mut out = "{\"Set\":{\"key\":".to_owned();
                out.append(key_text.as_str());
                out.append(",\"value\":");
                out.append(value_text.as_str());
                out.append("}}");
                Ok(out)
            },
            Command::Remove { key } => {
                let key_text = quote(key.as_str())?;
                let mut out = "{\"Remove\":{\"key\":".to_owned();
                out.append(key_text.as_str());
                out.append("}}");
                Ok(out)
            },
        }
    }

    /// Reads a line of the log as a command. White space at either end of
    /// the line does not count. Fails where what is left is the text of no
    /// record.
    pub fn decode(line: &str) -> (r: KvsResult<Command>)
        ensures
            match record_of(trim(line@)) {
                Some(record) => r is Ok && r->Ok_0@ == record,
                None => r is Err && r->Err_0 is Serde,
            },
    {
        let chars = to_chars(line);
        Command::parse(trim_slice(chars.as_slice()))
    }

    /// Reads `text` as a command, from its first character to its last.
    pub fn parse(text: &[char]) -> (r: KvsResult<Command>)
        ensures
            match record_of(text@) {
                Some(record) => r is Ok && r->Ok_0@ == record,
                None => r is Err && r->Err_0 is Serde,
            },
    {
        proof {
            lemma_parse_record_is_record_of(text@);
        }
        match read_record(text) {
            Some(command) => Ok(command),
            None => Err(KvsErrors::Serde(malformed("the line is no record"))),
        }
    }
}

} // verus!
