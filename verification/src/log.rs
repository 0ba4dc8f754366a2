//! The log: text made of lines, one record on each, and the mapping that
//! replaying its records gives.

use vstd::prelude::*;
use vstd::hash_map::StringHashMap;
use vstd::slice::slice_subrange;
use crate::command::{
    lemma_record_text_one_line, lemma_record_text_trimmed, lemma_round_trip, record_of,
    record_text, Command, Record,
};
use crate::error::KvsResult;
use crate::text::{to_chars, trim, trim_slice};

verus! {

/// How many characters of `t` stand in front of its first line feed: all of
/// them where it has none.
pub open spec fn line_len(t: Seq<char>) -> nat
    decreases t.len(),
{
    if t.len() == 0 || t[0] == '\n' {
        0
    } else {
        1 + line_len(t.drop_first())
    }
}

/// The records of the log `t`, in the order of its lines. A line of white
/// space alone holds no record. `None` where some other line is the text of
/// no record.
pub open spec fn log_records(t: Seq<char>) -> Option<Seq<Record>>
    decreases t.len(),
{
    if t.len() == 0 {
        Some(Seq::empty())
    } else {
        let n = line_len(t);
        let line = trim(t.take(n as int));
        let rest = if n < t.len() {
            t.skip(n as int + 1)
        } else {
            Seq::empty()
        };
        if line.len() == 0 {
            log_records(rest)
        } else {
            match (record_of(line), log_records(rest)) {
                (Some(r), Some(rs)) => Some(seq![r] + rs),
                _ => None,
            }
        }
    }
}

/// What one record does to a mapping: `Put` inserts or overwrites, `Remove`
/// deletes, and does nothing where the key is absent.
pub open spec fn apply(m: Map<Seq<char>, Seq<char>>, r: Record) -> Map<Seq<char>, Seq<char>> {
    match r {
        Record::Put { key, value } => m.insert(key, value),
        Record::Remove { key } => m.remove(key),
    }
}

/// The mapping that the records `rs` give when applied in order to the empty
/// mapping.
pub open spec fn mapping_of(rs: Seq<Record>) -> Map<Seq<char>, Seq<char>>
    decreases rs.len(),
{
    if rs.len() == 0 {
        Map::empty()
    } else {
        apply(mapping_of(rs.drop_last()), rs.last())
    }
}

/// The mapping that replaying the log `t` gives; `None` where a line of it
/// is the text of no record.
pub open spec fn log_mapping(t: Seq<char>) -> Option<Map<Seq<char>, Seq<char>>> {
    match log_records(t) {
        Some(rs) => Some(mapping_of(rs)),
        None => None,
    }
}

/// Whether the last line of the log `t` has no line feed behind it yet.
pub open spec fn unterminated(t: Seq<char>) -> bool {
    t.len() > 0 && t.last() != '\n'
}

/// What is appended to the log `t` to add the record `r` as a line of its
/// own: a line feed first where the last line of `t` is not closed, then the
/// text of `r`, then a line feed.
pub open spec fn appended_line(t: Seq<char>, r: Record) -> Seq<char> {
    if unterminated(t) {
        seq!['\n'] + record_text(r) + seq!['\n']
    } else {
        record_text(r) + seq!['\n']
    }
}

/// Commands as contracts see them.
pub open spec fn records_view(commands: Seq<Command>) -> Seq<Record> {
    commands.map_values(|c: Command| c@)
}

/// A mapping as contracts see it: its values as sequences of characters.
pub open spec fn mapping_view(m: Map<Seq<char>, String>) -> Map<Seq<char>, Seq<char>> {
    m.map_values(|v: String| v@)
}

/// `ahead` in front of the records `r`, where there are any.
pub open spec fn records_after(ahead: Seq<Record>, r: Option<Seq<Record>>) -> Option<
    Seq<Record>,
> {
    match r {
        Some(rs) => Some(ahead + rs),
        None => None,
    }
}

/// `r` behind the records `rs`, where there are any.
pub open spec fn records_after_push(rs: Option<Seq<Record>>, r: Record) -> Option<Seq<Record>> {
    match rs {
        Some(rs) => Some(rs.push(r)),
        None => None,
    }
}

/// After a `Put` the key has the value that was put, whatever it had before,
/// and a later `Put` of the same key wins; after a `Remove` the key is
/// absent, also where it was absent before; no other key is touched.
pub proof fn lemma_apply(
    m: Map<Seq<char>, Seq<char>>,
    key: Seq<char>,
    value: Seq<char>,
    other: Seq<char>,
)
    ensures
        apply(m, (Record::Put { key, value })).contains_key(key),
        apply(m, (Record::Put { key, value }))[key] == value,
        apply(apply(m, (Record::Put { key, value: other })), (Record::Put { key, value })) == apply(
            m,
            (Record::Put { key, value }),
        ),
        !apply(m, (Record::Remove { key })).contains_key(key),
        !m.contains_key(key) ==> apply(m, (Record::Remove { key })) == m,
        other != key ==> apply(m, (Record::Put { key, value })).contains_key(other)
            == m.contains_key(other) && apply(m, (Record::Remove { key })).contains_key(other)
            == m.contains_key(other),
        other != key && m.contains_key(other) ==> apply(m, (Record::Put { key, value }))[other]
            == m[other] && apply(m, (Record::Remove { key }))[other] == m[other],
{
}

/// `line_len` stops at the first line feed, and not before.
pub proof fn lemma_line_len(t: Seq<char>)
    ensures
        line_len(t) <= t.len(),
        line_len(t) < t.len() ==> t[line_len(t) as int] == '\n',
        forall|i: int| 0 <= i < line_len(t) ==> t[i] != '\n',
    decreases t.len(),
{
    if t.len() > 0 && t[0] != '\n' {
        let rest = t.drop_first();
        lemma_line_len(rest);
        assert forall|i: int| 0 <= i < line_len(t) implies t[i] != '\n' by {
            if i > 0 {
                assert(t[i] == rest[i - 1]);
            }
        }
    }
}

/// Where `t` has its first line feed at index `j`, `line_len(t)` is `j`.
pub proof fn lemma_line_len_is(t: Seq<char>, j: int)
    requires
        0 <= j <= t.len(),
        j < t.len() ==> t[j] == '\n',
        forall|i: int| 0 <= i < j ==> t[i] != '\n',
    ensures
        line_len(t) == j,
    decreases t.len(),
{
    if j > 0 {
        let rest = t.drop_first();
        assert forall|i: int| 0 <= i < j - 1 implies rest[i] != '\n' by {}
        lemma_line_len_is(rest, j - 1);
    }
}

/// A line feed behind an open last line adds no record and takes none away.
pub proof fn lemma_close_last_line(t: Seq<char>)
    requires
        unterminated(t),
    ensures
        log_records(t + seq!['\n']) == log_records(t),
    decreases t.len(),
{
    let closed = t + seq!['\n'];
    let n = line_len(t);
    lemma_line_len(t);
    assert forall|i: int| 0 <= i < n implies closed[i] != '\n' by {}
    lemma_line_len_is(closed, n as int);
    assert(closed.take(n as int) =~= t.take(n as int));
    if n < t.len() {
        let rest = t.skip(n as int + 1);
        assert(closed.skip(n as int + 1) =~= rest + seq!['\n']);
        lemma_close_last_line(rest);
    } else {
        assert(closed.skip(n as int + 1) =~= Seq::<char>::empty());
    }
}

/// A record appended as a line to a log whose last line is closed comes
/// last among the records of the new log, behind those of the old one.
pub proof fn lemma_append_to_closed(t: Seq<char>, r: Record)
    requires
        !unterminated(t),
    ensures
        log_records(t + (record_text(r) + seq!['\n'])) == records_after_push(log_records(t), r),
    decreases t.len(),
{
    let line = record_text(r);
    let tail = line + seq!['\n'];
    let whole = t + tail;
    if t.len() == 0 {
        lemma_record_text_one_line(r);
        assert forall|i: int| 0 <= i < line.len() implies tail[i] != '\n' by {}
        lemma_line_len_is(tail, line.len() as int);
        assert(tail.take(line.len() as int) =~= line);
        assert(tail.skip(line.len() as int + 1) =~= Seq::<char>::empty());
        lemma_record_text_trimmed(r);
        lemma_round_trip(r);
        assert(log_records(Seq::<char>::empty()) == Some(Seq::<Record>::empty()));
    } else {
        let n = line_len(t);
        lemma_line_len(t);
        assert(n < t.len());
        assert forall|i: int| 0 <= i < n implies whole[i] != '\n' by {}
        lemma_line_len_is(whole, n as int);
        assert(whole.take(n as int) =~= t.take(n as int));
        let rest = t.skip(n as int + 1);
        assert(whole.skip(n as int + 1) =~= rest + tail);
        lemma_append_to_closed(rest, r);
    }
}

/// Appending a record to a log adds it behind the records of that log,
/// whether or not the last line of the log was closed.
pub proof fn lemma_append(t: Seq<char>, r: Record)
    ensures
        log_records(t + appended_line(t, r)) == records_after_push(log_records(t), r),
{
    if unterminated(t) {
        let closed = t + seq!['\n'];
        lemma_close_last_line(t);
        lemma_append_to_closed(closed, r);
        assert(t + appended_line(t, r) =~= closed + (record_text(r) + seq!['\n']));
    } else {
        lemma_append_to_closed(t, r);
    }
}

/// One line that is neither blank nor the text of a record makes the whole
/// log unreadable, wherever it stands and whatever the other lines hold.
pub proof fn lemma_corrupt_line(before: Seq<char>, line: Seq<char>, after: Seq<char>)
    requires
        !unterminated(before),
        forall|i: int| 0 <= i < line.len() ==> line[i] != '\n',
        after.len() == 0 || after[0] == '\n',
        trim(line).len() > 0,
        record_of(trim(line)) is None,
    ensures
        log_records(before + line + after) is None,
        log_mapping(before + line + after) is None,
    decreases before.len(),
{
    let whole = before + line + after;
    if before.len() == 0 {
        assert forall|i: int| 0 <= i < line.len() implies whole[i] != '\n' by {}
        lemma_line_len_is(whole, line.len() as int);
        assert(whole.take(line.len() as int) =~= line);
    } else {
        let n = line_len(before);
        lemma_line_len(before);
        assert(n < before.len());
        assert forall|i: int| 0 <= i < n implies whole[i] != '\n' by {}
        lemma_line_len_is(whole, n as int);
        let rest = before.skip(n as int + 1);
        assert(whole.skip(n as int + 1) =~= rest + line + after);
        lemma_corrupt_line(rest, line, after);
    }
}

/// Replaying a log with one more record gives what that record does to the
/// mapping of the log before.
pub proof fn lemma_append_mapping(t: Seq<char>, r: Record)
    requires
        log_mapping(t) is Some,
    ensures
        log_mapping(t + appended_line(t, r)) == Some(apply(log_mapping(t)->Some_0, r)),
{
    lemma_append(t, r);
    let rs = log_records(t)->Some_0;
    assert(rs.push(r).drop_last() =~= rs);
}

/// The index of the first line feed of `s` at or behind index `i`, or the
/// length of `s` where there is none.
fn line_end(s: &[char], i: usize) -> (end: usize)
    requires
        i <= s.len(),
    ensures
        i <= end <= s.len(),
        end - i == line_len(s@.skip(i as int)),
{
    let mut end: usize = i;
    while end < s.len() && s[end] != '\n'
        invariant
            i <= end <= s.len(),
            forall|j: int| i <= j < end ==> s@[j] != '\n',
        decreases s.len() - end,
    {
        end += 1;
    }
    proof {
        lemma_line_len_is(s@.skip(i as int), end - i);
    }
    end
}

/// The commands of the log whose characters are `s`, as `read_all` gives
/// them.
pub(crate) fn read_all_chars(s: &[char]) -> (r: KvsResult<Vec<Command>>)
    ensures
        match log_records(s@) {
            Some(rs) => r is Ok && records_view(r->Ok_0@) == rs,
            None => r is Err && r->Err_0 is Serde,
        },
{
    let mut commands: Vec<Command> = Vec::new();
    let mut i: usize = 0;
    assert(s@.skip(0) =~= s@);
    while i < s.len()
        invariant
            i <= s.len(),
            log_records(s@) == records_after(
                records_view(commands@),
                log_records(s@.skip(i as int)),
            ),
        decreases s.len() - i,
    {
        let ghost t = s@.skip(i as int);
        let end = line_end(s, i);
        let line = slice_subrange(s, i, end);
        assert(line@ =~= t.take(end - i));
        let text = trim_slice(line);
        let next = if end < s.len() {
            end + 1
        } else {
            end
        };
        assert(s@.skip(next as int) =~= if end < s.len() {
            t.skip(end - i + 1)
        } else {
            Seq::empty()
        });
        if text.len() > 0 {
            let command = Command::parse(text)?;
            assert(records_view(commands@.push(command)) =~= records_view(commands@).push(
                command@,
            ));
            commands.push(command);
        }
        i = next;
    }
    Ok(commands)
}

/// Reads the log `log` from its start to its end: the commands on its
/// lines, in order. A line of white space alone is skipped. Fails where any
/// other line is the text of no record, and gives no command then.
pub fn read_all(log: &str) -> (r: KvsResult<Vec<Command>>)
    ensures
        match log_records(log@) {
            Some(rs) => r is Ok && records_view(r->Ok_0@) == rs,
            None => r is Err && r->Err_0 is Serde,
        },
{
    let chars = to_chars(log);
    read_all_chars(chars.as_slice())
}

/// Does to `store` what `command` says.
pub(crate) fn apply_command(store: &mut StringHashMap<String>, command: Command)
    ensures
        mapping_view(final(store)@) == apply(mapping_view(old(store)@), command@),
{
    match command {
        Command::Put { key, value } => {
            store.insert(key, value);
        },
        Command::Remove { key } => {
            store.remove(key.as_str());
        },
    }
}

/// Applies `commands` in order to a mapping that starts empty.
pub fn replay(commands: Vec<Command>) -> (store: StringHashMap<String>)
    ensures
        mapping_view(store@) == mapping_of(records_view(commands@)),
{
    let mut store: StringHashMap<String> = StringHashMap::new();
    let ghost all = records_view(commands@);
    for command in it: commands.into_iter()
        invariant
            records_view(it.seq()) == all,
            mapping_view(store@) == mapping_of(all.take(it.index() as int)),
    {
        assert(all.take(it.index() + 1).drop_last() =~= all.take(it.index() as int));
        apply_command(&mut store, command);
    }
    assert(all.take(all.len() as int) =~= all);
    store
}

} // verus!
