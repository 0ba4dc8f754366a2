//! The store: the mapping in memory, kept in step with the log.

use vstd::prelude::*;
use vstd::hash_map::StringHashMap;
use crate::command::{Command, Record};
use crate::error::{KvsErrors, KvsResult};
use crate::log::{
    appended_line, apply, apply_command, lemma_append_mapping, log_mapping, mapping_view,
    read_all_chars, replay, unterminated,
};
use crate::text::to_chars;

verus! {

/// The name of the log file inside the directory of a store.
pub fn log_file_name() -> (name: &'static str)
    ensures
        name@ == "log.txt"@,
{
    "log.txt"
}

/// A key-value store over a log that its caller keeps.
///
/// The store reads and writes no file. `open` takes the text of the log.
/// `set` and `remove` stage one record and give back the text to append to
/// the log; once the caller has appended it, and made it durable, `commit`
/// takes the outcome and only then changes the mapping.
pub struct KvStore {
    store: StringHashMap<String>,
    staged: Option<Command>,
    midline: bool,
    log: Ghost<Seq<char>>,
}

impl View for KvStore {
    type V = Map<Seq<char>, Seq<char>>;

    /// The mapping in memory.
    closed spec fn view(&self) -> Map<Seq<char>, Seq<char>> {
        mapping_view(self.store@)
    }
}

impl KvStore {
    /// The log as this store knows it: the text it was opened on, and
    /// behind it what was appended for every record that was committed.
    pub closed spec fn log(&self) -> Seq<char> {
        self.log@
    }

    /// The record that is staged and not yet committed.
    pub closed spec fn staged(&self) -> Option<Record> {
        match self.staged {
            Some(command) => Some(command@),
            None => None,
        }
    }

    /// The mapping in memory is what replaying the log gives.
    pub closed spec fn wf(&self) -> bool {
        &&& log_mapping(self.log@) == Some(self@)
        &&& self.midline == unterminated(self.log@)
    }

    /// A store over an empty log.
    pub fn new() -> (s: KvStore)
        ensures
            s.wf(),
            s@ == Map::<Seq<char>, Seq<char>>::empty(),
            s.log() == Seq::<char>::empty(),
            s.staged() is None,
    {
        let store: StringHashMap<String> = StringHashMap::new();
        assert(mapping_view(store@) =~= Map::<Seq<char>, Seq<char>>::empty());
        KvStore { store, staged: None, midline: false, log: Ghost(Seq::empty()) }
    }

    /// Replays the log `log` from its first line to its last, into a mapping
    /// that starts empty. Fails where a line that is not blank is the text
    /// of no record, and gives no part of the mapping then.
    pub fn populate_store(log: &str) -> (r: KvsResult<StringHashMap<String>>)
        ensures
            match log_mapping(log@) {
                Some(m) => r is Ok && mapping_view(r->Ok_0@) == m,
                None => r is Err && r->Err_0 is Serde,
            },
    {
        let chars = to_chars(log);
        Ok(replay(read_all_chars(chars.as_slice())?))
    }

    /// A store over the log whose text is `log`, with the mapping that
    /// replaying it gives. Fails where the log cannot be replayed.
    pub fn open(log: &str) -> (r: KvsResult<KvStore>)
        ensures
            match log_mapping(log@) {
                Some(m) => r is Ok && r->Ok_0.wf() && r->Ok_0@ == m && r->Ok_0.log() == log@
                    && r->Ok_0.staged() is None,
                None => r is Err && r->Err_0 is Serde,
            },
    {
        let chars = to_chars(log);
        let s = chars.as_slice();
        let store = replay(read_all_chars(s)?);
        let midline = s.len() > 0 && s[s.len() - 1] != '\n';
        Ok(KvStore { store, staged: None, midline, log: Ghost(log@) })
    }

    /// Stages `command` and gives the text to append to the log for it.
    fn stage(&mut self, command: Command) -> (r: KvsResult<String>)
        requires
            old(self).wf(),
        ensures
            final(self).wf(),
            r is Ok,
            r->Ok_0@ == appended_line(old(self).log(), command@),
            final(self)@ == old(self)@,
            final(self).log() == old(self).log(),
            final(self).staged() == Some(command@),
    {
        let text = command.encode()?;
        let mut line = if self.midline {
            "\n".to_owned()
        } else {
            String::new()
        };
        proof {
            reveal_strlit("\n");
        }
        line.append(text.as_str());
        line.append("\n");
        self.staged = Some(command);
        Ok(line)
    }

    /// Stages the record that gives `key` the value `value`, and returns the
    /// text that the caller appends to the log for it. The mapping stays as
    /// it is until `commit`. A record staged before and not committed is
    /// dropped.
    pub fn set(&mut self, key: String, value: String) -> (r: KvsResult<String>)
        requires
            old(self).wf(),
        ensures
            final(self).wf(),
            r is Ok,
            r->Ok_0@ == appended_line(old(self).log(), (Record::Put { key: key@, value: value@ })),
            final(self)@ == old(self)@,
            final(self).log() == old(self).log(),
            final(self).staged() == Some((Record::Put { key: key@, value: value@ })),
    {
        self.stage(Command::Put { key, value })
    }

    /// The value of `key` in the mapping, `None` where it has none.
    pub fn get(&mut self, key: String) -> (r: KvsResult<Option<String>>)
        ensures
            *final(self) == *old(self),
            r is Ok,
            match r->Ok_0 {
                Some(value) => old(self)@.contains_key(key@) && value@ == old(self)@[key@],
                None => !old(self)@.contains_key(key@),
            },
    {
        match self.store.get(key.as_str()) {
            Some(value) => Ok(Some(value.clone())),
            None => Ok(None),
        }
    }

    /// Where `key` is in the mapping, stages the record that removes it and
    /// returns the text that the caller appends to the log for it; the
    /// mapping stays as it is until `commit`. Where `key` is absent, fails
    /// with `KeyNotFound` and changes nothing.
    pub fn remove(&mut self, key: String) -> (r: KvsResult<String>)
        requires
            old(self).wf(),
        ensures
            final(self).wf(),
            final(self)@ == old(self)@,
            final(self).log() == old(self).log(),
            match r {
                Ok(line) => old(self)@.contains_key(key@) && line@ == appended_line(
                    old(self).log(),
                    (Record::Remove { key: key@ }),
                ) && final(self).staged() == Some((Record::Remove { key: key@ })),
                Err(e) => !old(self)@.contains_key(key@) && e is KeyNotFound && final(self).staged()
                    == old(self).staged(),
            },
    {
        if !self.store.contains_key(key.as_str()) {
            return Err(KvsErrors::KeyNotFound());
        }
        self.stage(Command::Remove { key })
    }

    /// Takes the outcome of the append of the staged record's text.
    ///
    /// Where the append succeeded, the record now changes the mapping, and
    /// its text belongs to the log. Where it failed, the mapping stays
    /// untouched and the failure is returned. Either way nothing is staged
    /// afterwards. A success reported with nothing staged is a
    /// `GeneralError`.
    pub fn commit(&mut self, appended: Result<(), std::io::Error>) -> (r: KvsResult<()>)
        requires
            old(self).wf(),
        ensures
            final(self).wf(),
            final(self).staged() is None,
            match appended {
                Ok(_) => match old(self).staged() {
                    Some(record) => r is Ok && final(self)@ == apply(old(self)@, record)
                        && final(self).log() == old(self).log() + appended_line(
                        old(self).log(),
                        record,
                    ),
                    None => r is Err && r->Err_0 is GeneralError && final(self)@ == old(self)@
                        && final(self).log() == old(self).log(),
                },
                Err(e) => r is Err && r->Err_0 == KvsErrors::IO(e) && final(self)@ == old(self)@
                    && final(self).log() == old(self).log(),
            },
    {
        let staged = self.staged.take();
        match appended {
            Ok(_) => match staged {
                Some(command) => {
                    proof {
                        lemma_append_mapping(self.log@, command@);
                    }
                    self.log = Ghost(self.log@ + appended_line(self.log@, command@));
                    self.midline = false;
                    apply_command(&mut self.store, command);
                    Ok(())
                },
                None => Err(KvsErrors::GeneralError),
            },
            Err(e) => Err(KvsErrors::from(e)),
        }
    }

    /// Reopening on the log gives the mapping that the store holds: the
    /// mapping is a cache of the log, and every committed record survives a
    /// restart.
    pub proof fn lemma_reopen(&self)
        requires
            self.wf(),
        ensures
            log_mapping(self.log()) == Some(self@),
    {
    }

    /// Two stores over the same log hold the same mapping, however often and
    /// in whatever way each was brought there.
    pub proof fn lemma_same_log_same_mapping(&self, other: &KvStore)
        requires
            self.wf(),
            other.wf(),
            self.log() == other.log(),
        ensures
            self@ == other@,
    {
    }
}

} // verus!
