//! The cache of shortened links: one table, in which neither a link's
//! identifier nor a request's key occurs twice.

use crate::api::{copy_text, text_of, Bitlink, BitlinkView, Shorten, ShortenView};
use crate::weburl::{url_parse, ParseError, Url};
use vstd::prelude::*;
use vstd::string::StringExecFns;

verus! {

/// The table as it is kept on disk, in SQL: a link's identifier occurs
/// once, and so does a request's key.
pub const SCHEMA: &'static str =
    "CREATE TABLE IF NOT EXISTS shorten (id TEXT NOT NULL UNIQUE, link TEXT NOT NULL, long_url TEXT NOT NULL, domain TEXT, group_guid TEXT NOT NULL); CREATE UNIQUE INDEX IF NOT EXISTS ix_shorten ON shorten (group_guid, domain, long_url);";

/// The statement that reads the rows of the table, column by column as a
/// `CacheRow` names them.
pub const SELECT_ROWS: &'static str = "SELECT id, link, long_url, domain, group_guid FROM shorten";

/// The statement that writes one row, with a `CacheRow`'s fields as its
/// parameters, in the order in which the struct declares them.
pub const INSERT_ROW: &'static str =
    "INSERT INTO shorten (id, link, long_url, domain, group_guid) VALUES ($1, $2, $3, $4, $5)";

/// One row of the table, in the texts that are kept on disk.
#[derive(Debug, PartialEq, Eq)]
pub struct CacheRow {
    pub id: String,
    pub link: String,
    pub long_url: String,
    pub domain: Option<String>,
    pub group_guid: String,
}

impl Clone for CacheRow {
    fn clone(&self) -> (r: Self)
        ensures
            r == *self,
    {
        CacheRow {
            id: self.id.clone(),
            link: self.link.clone(),
            long_url: self.long_url.clone(),
            domain: copy_text(&self.domain),
            group_guid: self.group_guid.clone(),
        }
    }
}

/// A column of a row that does not hold what a link needs.
#[derive(Debug, PartialEq, Eq)]
pub struct DecodeError {
    /// The name of the column.
    pub index: &'static str,
    /// Why its text is no URL.
    pub source: ParseError,
}

/// One row of the table as the cache keeps it in memory: the texts that it
/// is found by, and the link that a hit returns.
struct CacheEntry {
    group_guid: String,
    domain: Option<String>,
    long_url: String,
    bitlink: Bitlink,
}

/// A row of the table as the contracts see it.
pub struct EntryView {
    /// What the row is found by.
    pub key: ShortenView,
    /// What a hit on the row returns.
    pub value: BitlinkView,
}

impl View for CacheEntry {
    type V = EntryView;

    closed spec fn view(&self) -> EntryView {
        EntryView {
            key: ShortenView {
                long_url: self.long_url@,
                domain: text_of(self.domain),
                group_guid: self.group_guid@,
            },
            value: self.bitlink@,
        }
    }
}

/// Whether a row of `rows` is found by `key`.
pub open spec fn holds_key(rows: Seq<EntryView>, key: ShortenView) -> bool {
    exists|i: int| 0 <= i < rows.len() && (#[trigger] rows[i]).key == key
}

/// Whether a row of `rows` holds the link with identifier `id`.
pub open spec fn holds_id(rows: Seq<EntryView>, id: Seq<char>) -> bool {
    exists|i: int| 0 <= i < rows.len() && (#[trigger] rows[i]).value.id == id
}

/// No key and no identifier occurs in two rows.
pub open spec fn unique(rows: Seq<EntryView>) -> bool {
    forall|i: int, j: int|
        0 <= i < j < rows.len() ==> (#[trigger] rows[i]).key != (#[trigger] rows[j]).key
            && rows[i].value.id != rows[j].value.id
}

/// The link that the row with `key` holds, if there is such a row.
pub open spec fn lookup(rows: Seq<EntryView>, key: ShortenView) -> Option<BitlinkView> {
    if holds_key(rows, key) {
        Some(rows[choose|i: int| 0 <= i < rows.len() && (#[trigger] rows[i]).key == key].value)
    } else {
        None
    }
}

/// The row that caches `link` as the answer to `key`. The long URL of the
/// link that a hit returns is the one of the request.
pub open spec fn entry_for(key: ShortenView, link: BitlinkView) -> EntryView {
    EntryView {
        key,
        value: BitlinkView { link: link.link, id: link.id, long_url: key.long_url },
    }
}

/// What an insert does to the table, and whether it took place: the row is
/// added unless its key or its identifier is there already.
pub open spec fn spec_set(rows: Seq<EntryView>, key: ShortenView, link: BitlinkView) -> (
    Seq<EntryView>,
    bool,
) {
    if holds_key(rows, key) || holds_id(rows, link.id) {
        (rows, false)
    } else {
        (rows.push(entry_for(key, link)), true)
    }
}

/// The row of the table that caches `link` as the answer to `key`, in the
/// texts that are kept on disk.
pub open spec fn spec_row_for(key: ShortenView, link: BitlinkView) -> CacheRowView {
    CacheRowView {
        id: link.id,
        link: link.link,
        long_url: key.long_url,
        domain: key.domain,
        group_guid: key.group_guid,
    }
}

/// A `CacheRow` as texts.
pub struct CacheRowView {
    pub id: Seq<char>,
    pub link: Seq<char>,
    pub long_url: Seq<char>,
    pub domain: Option<Seq<char>>,
    pub group_guid: Seq<char>,
}

impl View for CacheRow {
    type V = CacheRowView;

    open spec fn view(&self) -> CacheRowView {
        CacheRowView {
            id: self.id@,
            link: self.link@,
            long_url: self.long_url@,
            domain: text_of(self.domain),
            group_guid: self.group_guid@,
        }
    }
}

/// What a row read from disk decodes to: the entry that it stands for, or
/// the first of its two URL columns that holds no URL.
pub open spec fn spec_decode(row: CacheRowView) -> Result<EntryView, (Seq<char>, Seq<char>)> {
    match url_parse(row.link) {
        Err(reason) => Err(("link"@, reason)),
        Ok(link) => match url_parse(row.long_url) {
            Err(reason) => Err(("long_url"@, reason)),
            Ok(long_url) => Ok(
                EntryView {
                    key: ShortenView {
                        long_url: row.long_url,
                        domain: row.domain,
                        group_guid: row.group_guid,
                    },
                    value: BitlinkView { link, id: row.id, long_url },
                },
            ),
        },
    }
}

/// The row is found by its key in any table that holds it, provided that
/// no key occurs twice there.
pub proof fn lemma_lookup_finds(rows: Seq<EntryView>, i: int)
    requires
        unique(rows),
        0 <= i < rows.len(),
    ensures
        holds_key(rows, rows[i].key),
        lookup(rows, rows[i].key) == Some(rows[i].value),
{
    let key = rows[i].key;
    let found = choose|k: int| 0 <= k < rows.len() && (#[trigger] rows[k]).key == key;
    assert(found == i) by {
        if found < i {
            assert(rows[found].key != rows[i].key);
        } else if i < found {
            assert(rows[i].key != rows[found].key);
        }
    }
}

/// Adding a row whose key and identifier are new keeps the table free of
/// repetitions.
pub proof fn lemma_push_keeps_unique(rows: Seq<EntryView>, entry: EntryView)
    requires
        unique(rows),
        !holds_key(rows, entry.key),
        !holds_id(rows, entry.value.id),
    ensures
        unique(rows.push(entry)),
{
    let after = rows.push(entry);
    assert forall|i: int, j: int| 0 <= i < j < after.len() implies (#[trigger] after[i]).key != (
    #[trigger] after[j]).key && after[i].value.id != after[j].value.id by {
        if j < rows.len() {
            assert(after[i] == rows[i]);
            assert(after[j] == rows[j]);
        } else {
            assert(after[i] == rows[i]);
            assert(after[j] == entry);
        }
    }
}

impl Bitlink {
    /// The link that a row read from disk holds: its two URL columns are
    /// parsed, `link` first.
    pub fn from_row(row: &CacheRow) -> (r: Result<Bitlink, DecodeError>)
        ensures
            match r {
                Ok(bitlink) => spec_decode(row@) matches Ok(entry) && entry.value == bitlink@,
                Err(error) => spec_decode(row@) == Err::<EntryView, (Seq<char>, Seq<char>)>(
                    (error.index@, error.source.message@),
                ),
            },
    {
        let link = decode_url("link", row.link.as_str())?;
        let long_url = decode_url("long_url", row.long_url.as_str())?;
        Ok(Bitlink { link, id: row.id.clone(), long_url })
    }
}

/// The URL in one column of a row, or the column's name with the reason
/// why its text is no URL.
pub fn decode_url(index: &'static str, text: &str) -> (r: Result<Url, DecodeError>)
    ensures
        match r {
            Ok(url) => url_parse(text@) == Ok::<Seq<char>, Seq<char>>(url@),
            Err(error) => error.index == index && url_parse(text@) == Err::<
                Seq<char>,
                Seq<char>,
            >(error.source.message@),
        },
{
    match Url::parse(text) {
        Ok(url) => Ok(url),
        Err(source) => Err(DecodeError { index, source }),
    }
}

/// The cache of shortened links of one version of the remote interface.
pub struct BitlinkCache {
    name: String,
    dir: Option<String>,
    rows: Vec<CacheEntry>,
}

impl View for BitlinkCache {
    type V = Seq<EntryView>;

    closed spec fn view(&self) -> Seq<EntryView> {
        self.rows@.map_values(|entry: CacheEntry| entry@)
    }
}

impl BitlinkCache {
    #[verifier::type_invariant]
    spec fn rows_are_unique(self) -> bool {
        unique(self@)
    }

    /// The name that the cache was opened under.
    pub closed spec fn name(&self) -> Seq<char> {
        self.name@
    }

    /// The directory that the cache was opened in, where one was given.
    pub closed spec fn dir(&self) -> Option<Seq<char>> {
        text_of(self.dir)
    }

    /// Whether a cache is kept at all: it is not where the directory is
    /// given as the empty path.
    pub open spec fn enabled(cache_dir: Option<Seq<char>>) -> bool {
        cache_dir != Some(Seq::<char>::empty())
    }

    /// Opens the cache called `name`, with no row in it yet. The cache is
    /// kept in the directory `cache_dir` or, where none is given, in the
    /// directory that the platform has for caches. An empty path for the
    /// directory means that no cache is wanted.
    pub fn new(name: &str, cache_dir: Option<&str>) -> (r: Option<BitlinkCache>)
        ensures
            r is Some <==> Self::enabled(
                match cache_dir {
                    Some(dir) => Some(dir@),
                    None => None,
                },
            ),
            r matches Some(cache) ==> {
                &&& cache@ == Seq::<EntryView>::empty()
                &&& cache.name() == name@
                &&& cache.dir() == match cache_dir {
                    Some(dir) => Some(dir@),
                    None => None,
                }
            },
    {
        let dir = match cache_dir {
            Some(dir) => {
                if dir.is_empty() {
                    assert(dir@ =~= Seq::<char>::empty());
                    return None;
                }
                Some(String::from_str(dir))
            },
            None => None,
        };
        let cache = BitlinkCache { name: String::from_str(name), dir, rows: Vec::new() };
        assert(cache@ =~= Seq::<EntryView>::empty());
        Some(cache)
    }

    /// The directory that the cache was opened in. `None` stands for the
    /// directory that the platform has for caches.
    pub fn directory(&self) -> (r: Option<&str>)
        ensures
            match r {
                Some(dir) => self.dir() == Some(dir@),
                None => self.dir() is None,
            },
    {
        match &self.dir {
            Some(dir) => Some(dir.as_str()),
            None => None,
        }
    }

    /// The name of the file that holds the table.
    pub fn file_name(&self) -> (r: String)
        ensures
            r@ == self.name() + ".db"@,
    {
        let mut file = self.name.clone();
        file.append(".db");
        file
    }

    /// The number of rows.
    pub fn len(&self) -> (r: usize)
        ensures
            r == self@.len(),
    {
        self.rows.len()
    }

    /// Whether a row stands in the way of `entry`: one with its key, or
    /// one with its identifier.
    fn conflict(&self, entry: &CacheEntry) -> (r: bool)
        ensures
            r == (holds_key(self@, entry@.key) || holds_id(self@, entry@.value.id)),
    {
        let mut i: usize = 0;
        while i < self.rows.len()
            invariant
                i <= self.rows.len(),
                forall|k: int|
                    0 <= k < i ==> (#[trigger] self@[k]).key != entry@.key && self@[k].value.id
                        != entry@.value.id,
            decreases self.rows.len() - i,
        {
            let row = &self.rows[i];
            assert(self@[i as int] == row@);
            let same_key = row.group_guid == entry.group_guid && same_text(
                &row.domain,
                &entry.domain,
            ) && row.long_url == entry.long_url;
            if same_key || row.bitlink.id == entry.bitlink.id {
                return true;
            }
            i += 1;
        }
        false
    }

    /// Looks the request up: the cached link of the row with exactly this
    /// group, domain and long URL, if there is one.
    pub fn get(&self, query: &Shorten) -> (r: Option<Bitlink>)
        ensures
            match r {
                Some(bitlink) => lookup(self@, query@) == Some(bitlink@),
                None => lookup(self@, query@) is None,
            },
    {
        proof {
            use_type_invariant(self);
        }
        let mut i: usize = 0;
        while i < self.rows.len()
            invariant
                i <= self.rows.len(),
                unique(self@),
                forall|k: int| 0 <= k < i ==> (#[trigger] self@[k]).key != query@,
            decreases self.rows.len() - i,
        {
            let row = &self.rows[i];
            assert(self@[i as int] == row@);
            if row.group_guid == query.group_guid && same_text(&row.domain, &query.domain)
                && row.long_url == *query.long_url.as_string() {
                proof {
                    lemma_lookup_finds(self@, i as int);
                }
                return Some(row.bitlink.clone());
            }
            i += 1;
        }
        None
    }

    /// Caches `link` as the answer to `query`. Nothing is written, and
    /// `false` returned, where a row with this key or with the link's
    /// identifier is there already.
    pub fn set(&mut self, query: &Shorten, link: &Bitlink) -> (inserted: bool)
        ensures
            (final(self)@, inserted) == spec_set(old(self)@, query@, link@),
            final(self).name() == old(self).name(),
            final(self).dir() == old(self).dir(),
    {
        let entry = CacheEntry {
            group_guid: query.group_guid.clone(),
            domain: copy_text(&query.domain),
            long_url: query.long_url.as_string().clone(),
            bitlink: Bitlink {
                link: link.link.clone(),
                id: link.id.clone(),
                long_url: query.long_url.clone(),
            },
        };
        assert(entry@ == entry_for(query@, link@));
        self.insert(entry)
    }

    /// Takes in a row read from disk. Nothing is written, and `false`
    /// returned, where one of its URL columns holds no URL, or where a row
    /// with its key or its identifier is there already.
    pub fn load(&mut self, row: CacheRow) -> (loaded: bool)
        ensures
            match spec_decode(row@) {
                Ok(entry) => loaded == (!holds_key(old(self)@, entry.key) && !holds_id(
                    old(self)@,
                    entry.value.id,
                )) && (loaded ==> final(self)@ == old(self)@.push(entry)),
                Err(_) => !loaded,
            },
            !loaded ==> final(self)@ == old(self)@,
            final(self).name() == old(self).name(),
            final(self).dir() == old(self).dir(),
    {
        match Bitlink::from_row(&row) {
            Ok(bitlink) => {
                let entry = CacheEntry {
                    group_guid: row.group_guid,
                    domain: row.domain,
                    long_url: row.long_url,
                    bitlink,
                };
                self.insert(entry)
            },
            Err(_) => false,
        }
    }

    /// Adds the row unless its key or its identifier is there already.
    fn insert(&mut self, entry: CacheEntry) -> (inserted: bool)
        ensures
            inserted == (!holds_key(old(self)@, entry@.key) && !holds_id(
                old(self)@,
                entry@.value.id,
            )),
            inserted ==> final(self)@ == old(self)@.push(entry@),
            !inserted ==> final(self)@ == old(self)@,
            final(self).name() == old(self).name(),
            final(self).dir() == old(self).dir(),
    {
        proof {
            use_type_invariant(&*self);
        }
        if self.conflict(&entry) {
            return false;
        }
        proof {
            lemma_push_keeps_unique(self@, entry@);
            assert(self.rows@.push(entry).map_values(|entry: CacheEntry| entry@) =~= self@.push(
                entry@,
            ));
        }
        // the rows are taken out for the push, so that the table is whole
        // at every step
        let mut rows: Vec<CacheEntry> = Vec::new();
        assert(rows@.map_values(|entry: CacheEntry| entry@) =~= Seq::<EntryView>::empty());
        core::mem::swap(&mut self.rows, &mut rows);
        rows.push(entry);
        core::mem::swap(&mut self.rows, &mut rows);
        true
    }

    /// The row that is written to disk for a link cached as the answer to
    /// `query`.
    pub fn row_for(query: &Shorten, link: &Bitlink) -> (r: CacheRow)
        ensures
            r@ == spec_row_for(query@, link@),
    {
        CacheRow {
            id: link.id.clone(),
            link: link.link.as_string().clone(),
            long_url: query.long_url.as_string().clone(),
            domain: copy_text(&query.domain),
            group_guid: query.group_guid.clone(),
        }
    }
}

/// Whether two optional strings hold the same text, or both none.
pub fn same_text(a: &Option<String>, b: &Option<String>) -> (r: bool)
    ensures
        r == (text_of(*a) == text_of(*b)),
{
    match (a, b) {
        (Some(x), Some(y)) => *x == *y,
        (None, None) => true,
        _ => false,
    }
}


/// A cache that was just opened holds no row, so every lookup misses.
pub proof fn law_fresh_cache_misses(key: ShortenView)
    ensures
        unique(Seq::<EntryView>::empty()),
        lookup(Seq::<EntryView>::empty(), key) is None,
{
}

/// Caching the same answer twice: the first insert takes place, the second
/// does not and changes nothing, and afterwards one row and no other is
/// found by the request. It holds of every table that has neither the
/// request's key nor the link's identifier yet.
pub proof fn law_set_is_idempotent(rows: Seq<EntryView>, key: ShortenView, link: BitlinkView)
    requires
        unique(rows),
        !holds_key(rows, key),
        !holds_id(rows, link.id),
    ensures
        ({
            let first = spec_set(rows, key, link);
            let second = spec_set(first.0, key, link);
            &&& first.1
            &&& !second.1
            &&& second.0 == first.0
            &&& unique(second.0)
            &&& lookup(second.0, key) == Some(entry_for(key, link).value)
            &&& forall|i: int, j: int|
                0 <= i < second.0.len() && 0 <= j < second.0.len() && (#[trigger] second.0[i]).key
                    == key && (#[trigger] second.0[j]).key == key ==> i == j
        }),
{
    let entry = entry_for(key, link);
    let first = rows.push(entry);
    lemma_push_keeps_unique(rows, entry);
    assert(first[rows.len() as int] == entry);
    lemma_lookup_finds(first, rows.len() as int);
    assert forall|i: int, j: int|
        0 <= i < first.len() && 0 <= j < first.len() && (#[trigger] first[i]).key == key && (
        #[trigger] first[j]).key == key implies i == j by {
        if i < j {
            assert(first[i].key != first[j].key);
        } else if j < i {
            assert(first[j].key != first[i].key);
        }
    }
}

/// What a lookup returns after an insert. Where the insert took place it is
/// the link that was cached, with the long URL of the request; where the
/// key was there already, the row that held it stays in place; where only
/// the identifier was there already, the lookup misses as before.
pub proof fn law_get_after_set(rows: Seq<EntryView>, key: ShortenView, link: BitlinkView)
    requires
        unique(rows),
    ensures
        ({
            let (after, inserted) = spec_set(rows, key, link);
            &&& unique(after)
            &&& inserted ==> lookup(after, key) == Some(entry_for(key, link).value)
            &&& !inserted ==> lookup(after, key) == lookup(rows, key)
            &&& inserted && link.long_url == key.long_url ==> lookup(after, key) == Some(link)
        }),
{
    if !holds_key(rows, key) && !holds_id(rows, link.id) {
        law_set_is_idempotent(rows, key, link);
    }
}

/// An insert leaves the answers to all other requests as they were.
pub proof fn law_set_keeps_other_rows(
    rows: Seq<EntryView>,
    key: ShortenView,
    link: BitlinkView,
    other: ShortenView,
)
    requires
        unique(rows),
        other != key,
    ensures
        lookup(spec_set(rows, key, link).0, other) == lookup(rows, other),
{
    let (after, inserted) = spec_set(rows, key, link);
    if inserted {
        lemma_push_keeps_unique(rows, entry_for(key, link));
        if holds_key(rows, other) {
            let i = choose|i: int| 0 <= i < rows.len() && (#[trigger] rows[i]).key == other;
            assert(after[i] == rows[i]);
            lemma_lookup_finds(rows, i);
            lemma_lookup_finds(after, i);
        } else {
            if holds_key(after, other) {
                let i = choose|i: int| 0 <= i < after.len() && (#[trigger] after[i]).key == other;
                if i < rows.len() {
                    assert(after[i] == rows[i]);
                } else {
                    assert(after[i] == entry_for(key, link));
                }
                assert(false);
            }
        }
    }
}

} // verus!
