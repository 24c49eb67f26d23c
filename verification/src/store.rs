use vstd::prelude::*;
use crate::codec::{decode_record, parse_line};
use crate::record::{models_of, RecordModel, TransactionData};
use crate::strutil;

verus! {

/// One append to the store: the tracking key it was filed under and the
/// record itself.
pub struct StoreEntry {
    pub key: String,
    pub record: TransactionData,
}

/// The keyed record store.
///
/// Mathematically the store is its append history: the sequence of
/// `(tracking key, record)` pairs in insertion order.  The per-key view that
/// `get_transactions` returns is derived from that history by
/// [`records_for`].  The store itself does no file I/O; the caller appends
/// each inserted record to the backing file named by [`Self::file_path`] and
/// hands the file's lines back at startup (see `load_from_lines`).
pub struct InMemoryDatabase {
    entries: Vec<StoreEntry>,
    file_path: String,
}

impl View for InMemoryDatabase {
    type V = Seq<(Seq<char>, RecordModel)>;

    closed spec fn view(&self) -> Seq<(Seq<char>, RecordModel)> {
        self.entries@.map_values(|e: StoreEntry| (e.key@, e.record@))
    }
}

/// The records filed under `key`, in insertion order.
pub open spec fn records_for(log: Seq<(Seq<char>, RecordModel)>, key: Seq<char>) -> Seq<
    RecordModel,
>
    decreases log.len(),
{
    if log.len() == 0 {
        Seq::empty()
    } else {
        let prefix = records_for(log.drop_last(), key);
        if log.last().0 == key {
            prefix.push(log.last().1)
        } else {
            prefix
        }
    }
}

/// Law: appending a record under a key extends exactly that key's sequence by
/// exactly that record, at the end, and leaves every other key's sequence
/// unchanged.
pub proof fn lemma_insert_appends(
    log: Seq<(Seq<char>, RecordModel)>,
    key: Seq<char>,
    rec: RecordModel,
    other: Seq<char>,
)
    ensures
        records_for(log.push((key, rec)), key) == records_for(log, key).push(rec),
        other != key ==> records_for(log.push((key, rec)), other) == records_for(log, other),
{
    assert(log.push((key, rec)).drop_last() =~= log);
    assert(log.push((key, rec)).last() == (key, rec));
}

/// The entries one reload of `lines` adds: one per parseable line, in file
/// order, each keyed by the record's own sender.
pub open spec fn loaded_entries(lines: Seq<Seq<char>>) -> Seq<(Seq<char>, RecordModel)>
    decreases lines.len(),
{
    if lines.len() == 0 {
        Seq::empty()
    } else {
        let rest = loaded_entries(lines.drop_last());
        match parse_line(lines.last()) {
            Some(r) => rest.push((r.sender, r)),
            None => rest,
        }
    }
}

/// How many of `lines` are parseable record lines.
pub open spec fn valid_line_count(lines: Seq<Seq<char>>) -> int
    decreases lines.len(),
{
    if lines.len() == 0 {
        0int
    } else {
        valid_line_count(lines.drop_last()) + if parse_line(lines.last()) is Some {
            1int
        } else {
            0int
        }
    }
}

/// Law: one reload of a file with N parseable lines and any number of corrupt
/// lines populates exactly N records, each filed under its own record's
/// sender; corrupt lines add nothing.
pub proof fn lemma_reload_populates(lines: Seq<Seq<char>>)
    ensures
        loaded_entries(lines).len() == valid_line_count(lines),
        forall|k: int|
            0 <= k < loaded_entries(lines).len() ==> (#[trigger] loaded_entries(lines)[k]).0
                == loaded_entries(lines)[k].1.sender,
    decreases lines.len(),
{
    if lines.len() > 0 {
        lemma_reload_populates(lines.drop_last());
    }
}

impl InMemoryDatabase {
    /// The path of the backing file, for the caller's append and reload I/O.
    pub closed spec fn path(self) -> Seq<char> {
        self.file_path@
    }

    /// Creates an empty store that names `file_path` as its backing file.
    pub fn new(file_path: String) -> (r: InMemoryDatabase)
        ensures
            r@ == Seq::<(Seq<char>, RecordModel)>::empty(),
            r.path() == file_path@,
    {
        let r = InMemoryDatabase { entries: Vec::new(), file_path };
        proof {
            assert(r@ =~= Seq::<(Seq<char>, RecordModel)>::empty());
        }
        r
    }

    /// The backing file path as a string slice.
    pub fn file_path(&self) -> (r: &str)
        ensures
            r@ == self.path(),
    {
        self.file_path.as_str()
    }

    /// Appends `transaction` to the sequence stored under `pub_key`.
    ///
    /// Durability is the caller's half: after a successful insert the caller
    /// appends the record's encoded line to the backing file.  The in-memory
    /// insert is best-effort-durable: it stands even if that append fails.
    pub fn add_transaction(&mut self, pub_key: &str, transaction: TransactionData)
        ensures
            final(self)@ == old(self)@.push((pub_key@, transaction@)),
            final(self).path() == old(self).path(),
    {
        let ghost expected = self@.push((pub_key@, transaction@));
        let e = StoreEntry { key: strutil::str_to_string(pub_key), record: transaction };
        self.entries.push(e);
        proof {
            assert(self@ =~= expected);
        }
    }

    /// Hydrates the store from the lines of the backing file.
    ///
    /// Each line is decoded independently; a line that is not a record line
    /// is skipped.  Each decoded record is filed under its own `sender`
    /// field.  Nothing is deduplicated.  Returns how many records were
    /// added.  Meant to run once at startup, before concurrent traffic; the
    /// caller reads the backing file and hands its lines over.
    pub fn load_from_lines(&mut self, lines: &Vec<String>) -> (n: usize)
        ensures
            final(self)@ == old(self)@ + loaded_entries(
                lines@.map_values(|l: String| l@),
            ),
            final(self).path() == old(self).path(),
            n == loaded_entries(lines@.map_values(|l: String| l@)).len(),
    {
        let ghost lmap = lines@.map_values(|l: String| l@);
        let mut count: usize = 0;
        let mut i: usize = 0;
        proof {
            assert(lmap.take(0) =~= Seq::<Seq<char>>::empty());
            assert(self@ =~= old(self)@ + loaded_entries(lmap.take(0)));
        }
        while i < lines.len()
            invariant
                i <= lines.len(),
                count <= i,
                lmap == lines@.map_values(|l: String| l@),
                self@ == old(self)@ + loaded_entries(lmap.take(i as int)),
                self.path() == old(self).path(),
                count == loaded_entries(lmap.take(i as int)).len(),
            decreases lines.len() - i,
        {
            let ghost prev = self@;
            proof {
                assert(lmap.take(i + 1).drop_last() =~= lmap.take(i as int));
                assert(lmap.take(i + 1).last() == lines@[i as int]@);
            }
            match decode_record(lines[i].as_str()) {
                Some(t) => {
                    let e = StoreEntry { key: t.sender.clone(), record: t };
                    self.entries.push(e);
                    count = count + 1;
                    proof {
                        assert(self@ =~= prev.push((t.sender@, t@)));
                        assert(self@ =~= old(self)@ + loaded_entries(lmap.take(i + 1)));
                    }
                },
                None => {
                    proof {
                        assert(loaded_entries(lmap.take(i + 1)) =~= loaded_entries(
                            lmap.take(i as int),
                        ));
                    }
                },
            }
            i = i + 1;
        }
        proof {
            assert(lmap.take(lines@.len() as int) =~= lmap);
        }
        count
    }

    /// A snapshot copy of the records stored under `pub_key`, in insertion
    /// order; empty if the key is absent.
    pub fn get_transactions(&self, pub_key: &str) -> (r: Vec<TransactionData>)
        ensures
            models_of(r@) == records_for(self@, pub_key@),
    {
        let mut out: Vec<TransactionData> = Vec::new();
        let n = self.entries.len();
        proof {
            assert(models_of(out@) =~= records_for(self@.take(0), pub_key@));
        }
        let mut i: usize = 0;
        while i < n
            invariant
                n == self.entries.len(),
                i <= n,
                models_of(out@) == records_for(self@.take(i as int), pub_key@),
            decreases n - i,
        {
            let e = &self.entries[i];
            let ghost prev = out@;
            if strutil::str_eq(e.key.as_str(), pub_key) {
                out.push(e.record.duplicate());
            }
            proof {
                assert(self@.take(i + 1).drop_last() =~= self@.take(i as int));
                assert(self@.take(i + 1).last() == (e.key@, e.record@));
                if e.key@ == pub_key@ {
                    assert(models_of(out@) =~= models_of(prev).push(e.record@));
                }
                assert(models_of(out@) == records_for(self@.take(i + 1), pub_key@));
            }
            i = i + 1;
        }
        proof {
            assert(self@.take(n as int) =~= self@);
        }
        out
    }
}

} // verus!
