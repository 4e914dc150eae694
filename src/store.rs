use vstd::prelude::*;
use vstd::hash_map::StringHashMap;

use crate::parser::{line_views, CeLine, LineView};
use crate::split::views;

verus! {

/// The largest row id: SQLite's largest rowid.
pub const MAX_ID: u64 = 0x7fff_ffff_ffff_ffff;

/// A row of the entries table.
#[derive(Debug, Clone, PartialEq, Eq)]
pub struct EntryRow {
    pub id: i64,
    pub simplified: String,
    pub traditional: String,
}

/// A row of a lookup table: one distinct text under its id.
#[derive(Debug, Clone, PartialEq, Eq)]
pub struct LookupRow {
    pub id: i64,
    pub text: String,
}

/// A row of a junction table: the item at position `ordering` (from 1) of the
/// entry `entry_id` is the lookup row `lookup_id`.
#[derive(Debug, Clone, Copy, PartialEq, Eq)]
pub struct LinkRow {
    pub ordering: i64,
    pub entry_id: i64,
    pub lookup_id: i64,
}

impl View for LinkRow {
    type V = (int, int, int);

    open spec fn view(&self) -> (int, int, int) {
        (self.ordering as int, self.entry_id as int, self.lookup_id as int)
    }
}

/// The views of junction rows.
pub open spec fn link_views(v: Seq<LinkRow>) -> Seq<(int, int, int)> {
    v.map_values(|r: LinkRow| r@)
}

/// A deduplicated table of texts; the row at position `i` has id `i + 1`.
pub struct LookupTable {
    rows: Vec<LookupRow>,
    index: StringHashMap<i64>,
}

impl View for LookupTable {
    type V = Seq<Seq<char>>;

    closed spec fn view(&self) -> Seq<Seq<char>> {
        self.rows@.map_values(|r: LookupRow| r.text@)
    }
}

/// The texts are pairwise distinct.
pub open spec fn distinct(t: Seq<Seq<char>>) -> bool {
    forall|i: int, j: int| 0 <= i < t.len() && 0 <= j < t.len() && i != j ==> t[i] != t[j]
}

/// The table after a get-or-create of `t`, and the id of `t` in it.
pub open spec fn intern(table: Seq<Seq<char>>, t: Seq<char>) -> (Seq<Seq<char>>, int) {
    if table.contains(t) {
        (table, table.index_of(t) + 1)
    } else {
        (table.push(t), table.len() as int + 1)
    }
}

/// The lookup table and the junction rows after linking `items`, in order, to
/// the entry `eid`: item `k` (from 1) gets the row `(k, eid, id)`.
pub open spec fn link_all(
    table: Seq<Seq<char>>,
    links: Seq<(int, int, int)>,
    eid: int,
    items: Seq<Seq<char>>,
) -> (Seq<Seq<char>>, Seq<(int, int, int)>)
    decreases items.len(),
{
    if items.len() == 0 {
        (table, links)
    } else {
        let (t1, l1) = link_all(table, links, eid, items.drop_last());
        let (t2, id) = intern(t1, items.last());
        (t2, l1.push((items.len() as int, eid, id)))
    }
}

impl LookupTable {
    pub closed spec fn wf(&self) -> bool {
        &&& forall|i: int| 0 <= i < self.rows@.len() ==> #[trigger] self.rows@[i].id == i + 1
        &&& distinct(self@)
        &&& forall|t: Seq<char>| #[trigger]
            self.index@.contains_key(t) <==> self@.contains(t)
        &&& forall|i: int|
            0 <= i < self.rows@.len() ==> self.index@[#[trigger] self.rows@[i].text@] == i + 1
    }

    pub fn new() -> (r: LookupTable)
        ensures
            r.wf(),
            r@ == Seq::<Seq<char>>::empty(),
    {
        let r = LookupTable { rows: Vec::new(), index: StringHashMap::new() };
        assert(r@ =~= Seq::<Seq<char>>::empty());
        r
    }

    pub fn len(&self) -> (r: usize)
        ensures
            r == self@.len(),
    {
        self.rows.len()
    }

    /// The rows, by id.
    pub fn rows(&self) -> (r: &Vec<LookupRow>)
        requires
            self.wf(),
        ensures
            r@.len() == self@.len(),
            forall|i: int| 0 <= i < r@.len() ==> #[trigger] r@[i].id == i + 1 && r@[i].text@ == self@[i],
    {
        &self.rows
    }

    /// The id of `text`, added as a new row if it is not there yet.
    pub fn get_or_create(&mut self, text: &String) -> (id: i64)
        requires
            old(self).wf(),
            old(self)@.len() < MAX_ID,
        ensures
            final(self).wf(),
            (final(self)@, id as int) == intern(old(self)@, text@),
    {
        match self.index.get(text.as_str()) {
            Some(id) => {
                let ghost i = self@.index_of(text@);
                assert(self@[i] == text@);
                assert(self.rows@[i].text@ == text@);
                *id
            },
            None => {
                let ghost before = self@;
                let ghost old_rows = self.rows@;
                let ghost old_index = self.index@;
                assert(!before.contains(text@));
                let id = (self.rows.len() as u64 + 1) as i64;
                self.rows.push(LookupRow { id, text: text.clone() });
                self.index.insert(text.clone(), id);
                assert(self@ =~= before.push(text@));
                assert(self.index@ == old_index.insert(text@, id));
                assert forall|t: Seq<char>| #[trigger]
                    self.index@.contains_key(t) <==> self@.contains(t) by {
                    if t == text@ {
                        assert(self@[self@.len() - 1] == t);
                    } else {
                        if self@.contains(t) {
                            let k = choose|k: int| 0 <= k < self@.len() && self@[k] == t;
                            assert(k < before.len());
                            assert(before[k] == t);
                            assert(before.contains(t));
                        }
                        if before.contains(t) {
                            let k = choose|k: int| 0 <= k < before.len() && before[k] == t;
                            assert(self@[k] == t);
                        }
                    }
                }
                assert forall|i: int| 0 <= i < self.rows@.len() implies self.index@[
                    #[trigger] self.rows@[i].text@] == i + 1 by {
                    if i < old_rows.len() {
                        assert(self.rows@[i] == old_rows[i]);
                        assert(before[i] == old_rows[i].text@);
                        assert(before.contains(old_rows[i].text@));
                    }
                }
                id
            },
        }
    }
}

/// The five tables as sequences: entries as (simplified, traditional), lookup
/// tables as texts by position (id minus one), junction rows as
/// (ordering, entry id, lookup id).
pub struct StoreView {
    pub entries: Seq<(Seq<char>, Seq<char>)>,
    pub pinyin: Seq<Seq<char>>,
    pub definitions: Seq<Seq<char>>,
    pub line_pinyin: Seq<(int, int, int)>,
    pub line_definitions: Seq<(int, int, int)>,
}

/// The store before any entry.
pub open spec fn empty_store() -> StoreView {
    StoreView {
        entries: Seq::empty(),
        pinyin: Seq::empty(),
        definitions: Seq::empty(),
        line_pinyin: Seq::empty(),
        line_definitions: Seq::empty(),
    }
}

/// Whether every id that inserting `e` may hand out fits.
pub open spec fn fits(s: StoreView, e: LineView) -> bool {
    &&& s.entries.len() < MAX_ID
    &&& s.pinyin.len() + e.pinyin.len() <= MAX_ID
    &&& s.definitions.len() + e.definitions.len() <= MAX_ID
}

/// The store after inserting `e`: a new entry row, then its pronunciations and
/// definitions linked in order through get-or-create.
pub open spec fn insert_spec(s: StoreView, e: LineView) -> StoreView {
    let eid = s.entries.len() as int + 1;
    let (p, lp) = link_all(s.pinyin, s.line_pinyin, eid, e.pinyin);
    let (d, ld) = link_all(s.definitions, s.line_definitions, eid, e.definitions);
    StoreView {
        entries: s.entries.push((e.simplified, e.traditional)),
        pinyin: p,
        definitions: d,
        line_pinyin: lp,
        line_definitions: ld,
    }
}

/// What to do with an entry whose ids do not fit.
#[derive(Debug, Clone, Copy, PartialEq, Eq)]
pub enum FailurePolicy {
    /// Leave the entry out and go on with the next one.
    SkipEntry,
    /// Fail the whole load.
    AbortBatch,
}

/// Why an entry or a load failed.
#[derive(Debug, Clone, Copy, PartialEq, Eq)]
pub enum StoreError {
    /// A table has no id left for a new row.
    IdsExhausted,
}

/// The store after loading `es` into `s` under `policy`; `None` where the load fails.
pub open spec fn load_spec(s: StoreView, es: Seq<LineView>, policy: FailurePolicy) -> Option<
    StoreView,
>
    decreases es.len(),
{
    if es.len() == 0 {
        Some(s)
    } else {
        match load_spec(s, es.drop_last(), policy) {
            None => None,
            Some(t) => if fits(t, es.last()) {
                Some(insert_spec(t, es.last()))
            } else if policy == FailurePolicy::SkipEntry {
                Some(t)
            } else {
                None
            },
        }
    }
}

/// A load that fails on a prefix fails on the whole.
proof fn lemma_load_fails_on(s: StoreView, es: Seq<LineView>, k: int, policy: FailurePolicy)
    requires
        0 <= k <= es.len(),
        load_spec(s, es.take(k), policy) is None,
    ensures
        load_spec(s, es, policy) is None,
    decreases es.len() - k,
{
    if k == es.len() {
        assert(es.take(k) =~= es);
    } else {
        assert(es.take(k + 1).drop_last() =~= es.take(k));
        lemma_load_fails_on(s, es, k + 1, policy);
    }
}

/// A load that skips the entries that do not fit never fails.
pub proof fn lemma_skip_never_fails(s: StoreView, es: Seq<LineView>)
    ensures
        load_spec(s, es, FailurePolicy::SkipEntry) is Some,
    decreases es.len(),
{
    if es.len() > 0 {
        lemma_skip_never_fails(s, es.drop_last());
    }
}

/// The normalized store of dictionary entries.
pub struct DictStore {
    entries: Vec<EntryRow>,
    pinyin: LookupTable,
    definitions: LookupTable,
    line_pinyin: Vec<LinkRow>,
    line_definitions: Vec<LinkRow>,
}

impl View for DictStore {
    type V = StoreView;

    closed spec fn view(&self) -> StoreView {
        StoreView {
            entries: self.entries@.map_values(|r: EntryRow| (r.simplified@, r.traditional@)),
            pinyin: self.pinyin@,
            definitions: self.definitions@,
            line_pinyin: link_views(self.line_pinyin@),
            line_definitions: link_views(self.line_definitions@),
        }
    }
}

/// Links `items`, in order, to the entry `eid`: get-or-create of each in
/// `table`, and a junction row for each in `links`.
fn link_items(table: &mut LookupTable, links: &mut Vec<LinkRow>, eid: i64, items: &Vec<String>)
    requires
        old(table).wf(),
        old(table)@.len() + items@.len() <= MAX_ID,
    ensures
        final(table).wf(),
        (final(table)@, link_views(final(links)@)) == link_all(
            old(table)@,
            link_views(old(links)@),
            eid as int,
            views(items@),
        ),
{
    let ghost t0 = table@;
    let ghost l0 = link_views(links@);
    let ghost all = views(items@);
    let mut i: usize = 0;
    assert(all.take(0) =~= Seq::<Seq<char>>::empty());
    while i < items.len()
        invariant
            table.wf(),
            t0.len() + items@.len() <= MAX_ID,
            all == views(items@),
            i <= items@.len(),
            table@.len() <= t0.len() + i,
            (table@, link_views(links@)) == link_all(t0, l0, eid as int, all.take(i as int)),
        decreases items@.len() - i,
    {
        let id = table.get_or_create(&items[i]);
        let row = LinkRow { ordering: (i as u64 + 1) as i64, entry_id: eid, lookup_id: id };
        let ghost before = links@;
        links.push(row);
        proof {
            assert(link_views(links@) =~= link_views(before).push(row@));
            let taken = all.take(i + 1);
            assert(taken.drop_last() =~= all.take(i as int));
            assert(taken.last() == items@[i as int]@);
        }
        i = i + 1;
    }
    assert(all.take(i as int) =~= all);
}

impl DictStore {
    pub closed spec fn wf(&self) -> bool {
        &&& self.pinyin.wf()
        &&& self.definitions.wf()
        &&& forall|i: int| 0 <= i < self.entries@.len() ==> #[trigger] self.entries@[i].id == i + 1
    }

    /// An empty store.
    pub fn new() -> (r: DictStore)
        ensures
            r.wf(),
            r@ == empty_store(),
    {
        let r = DictStore {
            entries: Vec::new(),
            pinyin: LookupTable::new(),
            definitions: LookupTable::new(),
            line_pinyin: Vec::new(),
            line_definitions: Vec::new(),
        };
        assert(r@.entries =~= Seq::<(Seq<char>, Seq<char>)>::empty());
        assert(r@.line_pinyin =~= Seq::<(int, int, int)>::empty());
        assert(r@.line_definitions =~= Seq::<(int, int, int)>::empty());
        r
    }

    /// Inserts one entry and returns its id; fails, leaving the store as it
    /// was, where a table could run out of ids.
    pub fn insert_entry(&mut self, line: &CeLine) -> (r: Result<i64, StoreError>)
        requires
            old(self).wf(),
        ensures
            final(self).wf(),
            fits(old(self)@, line@) ==> r == Ok::<i64, StoreError>(
                (old(self)@.entries.len() + 1) as i64,
            ) && final(self)@ == insert_spec(old(self)@, line@),
            !fits(old(self)@, line@) ==> r == Err::<i64, StoreError>(StoreError::IdsExhausted)
                && final(self)@ == old(self)@,
    {
        let np = line.pinyin.len() as u64;
        let nd = line.definitions.len() as u64;
        if self.entries.len() as u64 >= MAX_ID || np > MAX_ID || self.pinyin.len() as u64
            > MAX_ID - np || nd > MAX_ID || self.definitions.len() as u64 > MAX_ID - nd {
            return Err(StoreError::IdsExhausted);
        }
        let ghost s0 = self@;
        let id = (self.entries.len() as u64 + 1) as i64;
        let ghost before = self.entries@;
        self.entries.push(
            EntryRow {
                id,
                simplified: line.simplified.clone(),
                traditional: line.traditional.clone(),
            },
        );
        link_items(&mut self.pinyin, &mut self.line_pinyin, id, &line.pinyin);
        link_items(&mut self.definitions, &mut self.line_definitions, id, &line.definitions);
        assert(self@.entries =~= s0.entries.push((line@.simplified, line@.traditional)));
        Ok(id)
    }

    /// The store of `lines`, inserted in order; an entry whose ids do not fit
    /// is left out or fails the load, as `policy` says.
    pub fn load(lines: &Vec<CeLine>, policy: FailurePolicy) -> (r: Result<DictStore, StoreError>)
        ensures
            policy == FailurePolicy::SkipEntry ==> r is Ok,
            match r {
                Ok(s) => s.wf() && load_spec(empty_store(), line_views(lines@), policy) == Some(
                    s@,
                ),
                Err(e) => e == StoreError::IdsExhausted && load_spec(
                    empty_store(),
                    line_views(lines@),
                    policy,
                ) is None,
            },
    {
        let ghost es = line_views(lines@);
        proof {
            lemma_skip_never_fails(empty_store(), es);
        }
        let mut store = DictStore::new();
        let mut i: usize = 0;
        assert(es.take(0) =~= Seq::<LineView>::empty());
        while i < lines.len()
            invariant
                es == line_views(lines@),
                i <= lines@.len(),
                store.wf(),
                load_spec(empty_store(), es.take(i as int), policy) == Some(store@),
            decreases lines@.len() - i,
        {
            let r = store.insert_entry(&lines[i]);
            proof {
                let taken = es.take(i + 1);
                assert(taken.drop_last() =~= es.take(i as int));
                assert(taken.last() == lines@[i as int]@);
            }
            match r {
                Ok(_) => {},
                Err(e) => {
                    if let FailurePolicy::AbortBatch = policy {
                        proof {
                            lemma_load_fails_on(empty_store(), es, i + 1, policy);
                        }
                        return Err(e);
                    }
                },
            }
            i = i + 1;
        }
        assert(es.take(i as int) =~= es);
        Ok(store)
    }

    /// The entry rows, by id.
    pub fn entries(&self) -> (r: &Vec<EntryRow>)
        requires
            self.wf(),
        ensures
            r@.len() == self@.entries.len(),
            forall|i: int|
                0 <= i < r@.len() ==> #[trigger] r@[i].id == i + 1 && (
                r@[i].simplified@,
                r@[i].traditional@,
            ) == self@.entries[i],
    {
        &self.entries
    }

    /// The pronunciation lookup table.
    pub fn pinyin(&self) -> (r: &LookupTable)
        ensures
            r@ == self@.pinyin,
            self.wf() ==> r.wf(),
    {
        &self.pinyin
    }

    /// The definition lookup table.
    pub fn definitions(&self) -> (r: &LookupTable)
        ensures
            r@ == self@.definitions,
            self.wf() ==> r.wf(),
    {
        &self.definitions
    }

    /// The rows that link entries to their pronunciations.
    pub fn line_pinyin(&self) -> (r: &Vec<LinkRow>)
        ensures
            link_views(r@) == self@.line_pinyin,
    {
        &self.line_pinyin
    }

    /// The rows that link entries to their definitions.
    pub fn line_definitions(&self) -> (r: &Vec<LinkRow>)
        ensures
            link_views(r@) == self@.line_definitions,
    {
        &self.line_definitions
    }
}

} // verus!
