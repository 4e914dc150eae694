use vstd::prelude::*;

use crate::parser::LineView;
use crate::store::{
    distinct, empty_store, fits, insert_spec, intern, link_all, load_spec, FailurePolicy,
    StoreView,
};

verus! {

/// Every junction row names an entry id in `1..=n_entries` and a lookup id in
/// `1..=n_table`.
pub open spec fn links_in_range(links: Seq<(int, int, int)>, n_entries: int, n_table: int) -> bool {
    forall|i: int|
        0 <= i < links.len() ==> 1 <= (#[trigger] links[i]).1 <= n_entries && 1 <= links[i].2
            <= n_table
}

/// The lookup tables hold each text once, and every junction row refers to
/// rows that exist.
pub open spec fn store_wf(s: StoreView) -> bool {
    &&& distinct(s.pinyin)
    &&& distinct(s.definitions)
    &&& links_in_range(s.line_pinyin, s.entries.len() as int, s.pinyin.len() as int)
    &&& links_in_range(s.line_definitions, s.entries.len() as int, s.definitions.len() as int)
}

/// What reading the junction rows of entry `eid` gives, in the order of the
/// rows: the ordering of each and the text that it refers to.
pub open spec fn readback(table: Seq<Seq<char>>, links: Seq<(int, int, int)>, eid: int) -> Seq<
    (int, Seq<char>),
>
    decreases links.len(),
{
    if links.len() == 0 {
        Seq::empty()
    } else {
        let r = readback(table, links.drop_last(), eid);
        let l = links.last();
        if l.1 == eid {
            r.push((l.0, table[l.2 - 1]))
        } else {
            r
        }
    }
}

/// The items of a list, each with its position counted from 1.
pub open spec fn numbered(items: Seq<Seq<char>>) -> Seq<(int, Seq<char>)> {
    Seq::new(items.len(), |j: int| (j + 1, items[j]))
}

proof fn lemma_readback_append(
    table: Seq<Seq<char>>,
    a: Seq<(int, int, int)>,
    b: Seq<(int, int, int)>,
    eid: int,
)
    ensures
        readback(table, a + b, eid) == readback(table, a, eid) + readback(table, b, eid),
    decreases b.len(),
{
    if b.len() == 0 {
        assert(a + b =~= a);
        assert(readback(table, a, eid) + readback(table, b, eid) =~= readback(table, a, eid));
    } else {
        assert((a + b).drop_last() =~= a + b.drop_last());
        lemma_readback_append(table, a, b.drop_last(), eid);
        let ra = readback(table, a, eid);
        let rb = readback(table, b.drop_last(), eid);
        let l = b.last();
        assert((a + b).last() == l);
        if l.1 == eid {
            assert((ra + rb).push((l.0, table[l.2 - 1])) =~= ra + rb.push((l.0, table[l.2 - 1])));
        }
    }
}

proof fn lemma_readback_other(table: Seq<Seq<char>>, links: Seq<(int, int, int)>, eid: int)
    requires
        forall|i: int| 0 <= i < links.len() ==> (#[trigger] links[i]).1 != eid,
    ensures
        readback(table, links, eid) == Seq::<(int, Seq<char>)>::empty(),
    decreases links.len(),
{
    if links.len() > 0 {
        assert(links.last() == links[links.len() - 1]);
        lemma_readback_other(table, links.drop_last(), eid);
    }
}

proof fn lemma_readback_extend(
    table: Seq<Seq<char>>,
    t2: Seq<Seq<char>>,
    links: Seq<(int, int, int)>,
    eid: int,
)
    requires
        table.len() <= t2.len(),
        t2.subrange(0, table.len() as int) == table,
        forall|i: int| 0 <= i < links.len() ==> 1 <= (#[trigger] links[i]).2 <= table.len(),
    ensures
        readback(t2, links, eid) == readback(table, links, eid),
    decreases links.len(),
{
    if links.len() > 0 {
        let l = links.last();
        assert(l == links[links.len() - 1]);
        assert(t2[l.2 - 1] == t2.subrange(0, table.len() as int)[l.2 - 1]);
        lemma_readback_extend(table, t2, links.drop_last(), eid);
    }
}

proof fn lemma_readback_block(table: Seq<Seq<char>>, b: Seq<(int, int, int)>, eid: int)
    requires
        forall|i: int| 0 <= i < b.len() ==> (#[trigger] b[i]).1 == eid,
    ensures
        readback(table, b, eid) == Seq::new(b.len(), |j: int| (b[j].0, table[b[j].2 - 1])),
    decreases b.len(),
{
    if b.len() > 0 {
        assert(b.last() == b[b.len() - 1]);
        lemma_readback_block(table, b.drop_last(), eid);
        assert(readback(table, b, eid) =~= Seq::new(
            b.len(),
            |j: int| (b[j].0, table[b[j].2 - 1]),
        ));
    }
}

/// Linking a list keeps the table's texts distinct and its old rows in place,
/// and appends one junction row per item, in order.
proof fn lemma_link_all(
    table: Seq<Seq<char>>,
    links: Seq<(int, int, int)>,
    eid: int,
    items: Seq<Seq<char>>,
)
    requires
        distinct(table),
    ensures
        distinct(link_all(table, links, eid, items).0),
        table.len() <= link_all(table, links, eid, items).0.len() <= table.len() + items.len(),
        link_all(table, links, eid, items).0.subrange(0, table.len() as int) == table,
        link_all(table, links, eid, items).1.len() == links.len() + items.len(),
        link_all(table, links, eid, items).1.subrange(0, links.len() as int) == links,
        forall|j: int|
            0 <= j < items.len() ==> {
                let t2 = link_all(table, links, eid, items).0;
                let r = #[trigger] link_all(table, links, eid, items).1[links.len() + j];
                &&& r.0 == j + 1
                &&& r.1 == eid
                &&& 1 <= r.2 <= t2.len()
                &&& t2[r.2 - 1] == items[j]
            },
    decreases items.len(),
{
    if items.len() > 0 {
        let prev = items.drop_last();
        lemma_link_all(table, links, eid, prev);
        let (t1, l1) = link_all(table, links, eid, prev);
        let (t2, id) = intern(t1, items.last());
        let l2 = l1.push((items.len() as int, eid, id));
        assert(link_all(table, links, eid, items) == (t2, l2));
        if t1.contains(items.last()) {
            let i = t1.index_of(items.last());
            assert(t1[i] == items.last());
        } else {
            assert forall|i: int, j: int|
                0 <= i < t2.len() && 0 <= j < t2.len() && i != j implies t2[i] != t2[j] by {
                if i == t1.len() {
                    assert(t1.contains(t1[j]));
                }
                if j == t1.len() {
                    assert(t1.contains(t1[i]));
                }
            }
        }
        assert(t2.subrange(0, t1.len() as int) =~= t1);
        assert(t2.subrange(0, table.len() as int) =~= table) by {
            assert(t1.subrange(0, table.len() as int) == table);
        }
        assert(l2.subrange(0, links.len() as int) =~= links) by {
            assert(l1.subrange(0, links.len() as int) == links);
        }
        assert forall|j: int| 0 <= j < items.len() implies {
            let r = #[trigger] l2[links.len() + j];
            &&& r.0 == j + 1
            &&& r.1 == eid
            &&& 1 <= r.2 <= t2.len()
            &&& t2[r.2 - 1] == items[j]
        } by {
            if j < prev.len() {
                let r = l1[links.len() + j];
                assert(l2[links.len() + j] == r);
                assert(t2[r.2 - 1] == t2.subrange(0, t1.len() as int)[r.2 - 1]);
                assert(prev[j] == items[j]);
            }
        }
    }
}

/// Linking the list of entry `n + 1` leaves what the entries `1..=n` read
/// back unchanged, and reads back as that list, numbered from 1.
proof fn lemma_link_readback(
    table: Seq<Seq<char>>,
    links: Seq<(int, int, int)>,
    n: int,
    items: Seq<Seq<char>>,
)
    requires
        distinct(table),
        0 <= n,
        links_in_range(links, n, table.len() as int),
    ensures
        distinct(link_all(table, links, n + 1, items).0),
        links_in_range(
            link_all(table, links, n + 1, items).1,
            n + 1,
            link_all(table, links, n + 1, items).0.len() as int,
        ),
        forall|eid: int|
            1 <= eid <= n ==> #[trigger] readback(
                link_all(table, links, n + 1, items).0,
                link_all(table, links, n + 1, items).1,
                eid,
            ) == readback(table, links, eid),
        readback(
            link_all(table, links, n + 1, items).0,
            link_all(table, links, n + 1, items).1,
            n + 1,
        ) == numbered(items),
{
    lemma_link_all(table, links, n + 1, items);
    let (t2, l2) = link_all(table, links, n + 1, items);
    let b = l2.subrange(links.len() as int, l2.len() as int);
    assert(l2 =~= links + b) by {
        assert(l2.subrange(0, links.len() as int) == links);
    }
    assert forall|j: int| 0 <= j < b.len() implies (#[trigger] b[j]).1 == n + 1 && 1 <= b[j].2
        <= t2.len() && b[j].0 == j + 1 && t2[b[j].2 - 1] == items[j] by {
        assert(b[j] == l2[links.len() + j]);
    }
    assert forall|i: int| 0 <= i < l2.len() implies 1 <= (#[trigger] l2[i]).1 <= n + 1 && 1
        <= l2[i].2 <= t2.len() by {
        if i < links.len() {
            assert(l2[i] == links[i]);
        } else {
            assert(l2[i] == b[i - links.len()]);
        }
    }
    assert forall|eid: int| 1 <= eid <= n implies #[trigger] readback(t2, l2, eid) == readback(
        table,
        links,
        eid,
    ) by {
        lemma_readback_append(t2, links, b, eid);
        lemma_readback_other(t2, b, eid);
        lemma_readback_extend(table, t2, links, eid);
        assert(readback(t2, links, eid) + Seq::<(int, Seq<char>)>::empty() =~= readback(
            t2,
            links,
            eid,
        ));
    }
    lemma_readback_append(t2, links, b, n + 1);
    lemma_readback_other(t2, links, n + 1);
    lemma_readback_block(t2, b, n + 1);
    assert(Seq::<(int, Seq<char>)>::empty() + readback(t2, b, n + 1) =~= numbered(items));
}

proof fn lemma_insert_wf(s: StoreView, e: LineView)
    requires
        store_wf(s),
    ensures
        store_wf(insert_spec(s, e)),
        insert_spec(s, e).entries.len() == s.entries.len() + 1,
        forall|eid: int|
            1 <= eid <= s.entries.len() ==> #[trigger] readback(
                insert_spec(s, e).pinyin,
                insert_spec(s, e).line_pinyin,
                eid,
            ) == readback(s.pinyin, s.line_pinyin, eid) && readback(
                insert_spec(s, e).definitions,
                insert_spec(s, e).line_definitions,
                eid,
            ) == readback(s.definitions, s.line_definitions, eid),
        readback(
            insert_spec(s, e).pinyin,
            insert_spec(s, e).line_pinyin,
            s.entries.len() as int + 1,
        ) == numbered(e.pinyin),
        readback(
            insert_spec(s, e).definitions,
            insert_spec(s, e).line_definitions,
            s.entries.len() as int + 1,
        ) == numbered(e.definitions),
{
    let n = s.entries.len() as int;
    lemma_link_readback(s.pinyin, s.line_pinyin, n, e.pinyin);
    lemma_link_readback(s.definitions, s.line_definitions, n, e.definitions);
}

/// Two junction rows whose lookup rows hold the same text refer to the same id.
pub open spec fn same_text_same_id(table: Seq<Seq<char>>, links: Seq<(int, int, int)>) -> bool {
    forall|i: int, j: int|
        0 <= i < links.len() && 0 <= j < links.len() && table[#[trigger] links[i].2 - 1]
            == table[#[trigger] links[j].2 - 1] ==> links[i].2 == links[j].2
}

/// Every load, under either policy, leaves each pronunciation and each
/// definition text in one lookup row only, and every junction row refers to an
/// entry and a lookup row that exist: two junction rows whose texts are equal
/// refer to the same lookup id.
pub proof fn lemma_load_deduplicates(es: Seq<LineView>, policy: FailurePolicy)
    requires
        load_spec(empty_store(), es, policy) is Some,
    ensures
        store_wf(load_spec(empty_store(), es, policy)->0),
        same_text_same_id(
            load_spec(empty_store(), es, policy)->0.pinyin,
            load_spec(empty_store(), es, policy)->0.line_pinyin,
        ),
        same_text_same_id(
            load_spec(empty_store(), es, policy)->0.definitions,
            load_spec(empty_store(), es, policy)->0.line_definitions,
        ),
    decreases es.len(),
{
    if es.len() > 0 {
        lemma_load_deduplicates(es.drop_last(), policy);
        let t = load_spec(empty_store(), es.drop_last(), policy)->0;
        if fits(t, es.last()) {
            lemma_insert_wf(t, es.last());
        }
    }
    let s = load_spec(empty_store(), es, policy)->0;
    assert forall|i: int, j: int|
        0 <= i < s.line_pinyin.len() && 0 <= j < s.line_pinyin.len() && s.pinyin[
        #[trigger] s.line_pinyin[i].2 - 1] == s.pinyin[#[trigger] s.line_pinyin[j].2
            - 1] implies s.line_pinyin[i].2 == s.line_pinyin[j].2 by {
        assert(1 <= s.line_pinyin[i].2 <= s.pinyin.len());
        assert(1 <= s.line_pinyin[j].2 <= s.pinyin.len());
    }
    assert forall|i: int, j: int|
        0 <= i < s.line_definitions.len() && 0 <= j < s.line_definitions.len()
            && s.definitions[#[trigger] s.line_definitions[i].2 - 1] == s.definitions[
        #[trigger] s.line_definitions[j].2 - 1] implies s.line_definitions[i].2
        == s.line_definitions[j].2 by {
        assert(1 <= s.line_definitions[i].2 <= s.definitions.len());
        assert(1 <= s.line_definitions[j].2 <= s.definitions.len());
    }
}

/// Entry `k` (id `k + 1`) of the store holds the headwords of `e`, and its
/// junction rows read back as the pronunciations and definitions of `e`.
pub open spec fn entry_reads_back(s: StoreView, e: LineView, k: int) -> bool {
    &&& s.entries[k] == (e.simplified, e.traditional)
    &&& readback(s.pinyin, s.line_pinyin, k + 1) == numbered(e.pinyin)
    &&& readback(s.definitions, s.line_definitions, k + 1) == numbered(e.definitions)
}

/// The store holds exactly the entries `es`, in order, each reading back.
pub open spec fn reads_back(s: StoreView, es: Seq<LineView>) -> bool {
    &&& s.entries.len() == es.len()
    &&& forall|k: int| 0 <= k < es.len() ==> entry_reads_back(s, #[trigger] es[k], k)
}

/// Under `AbortBatch`, a load that succeeds stores every entry, in order, under
/// ids from 1, and reading back the junction rows of each entry gives its
/// pronunciations and its definitions in the order of its source line, numbered from 1.
pub proof fn lemma_load_reads_back(es: Seq<LineView>)
    requires
        load_spec(empty_store(), es, FailurePolicy::AbortBatch) is Some,
    ensures
        store_wf(load_spec(empty_store(), es, FailurePolicy::AbortBatch)->0),
        reads_back(load_spec(empty_store(), es, FailurePolicy::AbortBatch)->0, es),
    decreases es.len(),
{
    if es.len() > 0 {
        let prev = es.drop_last();
        lemma_load_reads_back(prev);
        let t = load_spec(empty_store(), prev, FailurePolicy::AbortBatch)->0;
        let e = es.last();
        assert(fits(t, e));
        lemma_insert_wf(t, e);
        let s = insert_spec(t, e);
        assert(load_spec(empty_store(), es, FailurePolicy::AbortBatch) == Some(s));
        assert forall|k: int| 0 <= k < es.len() implies entry_reads_back(s, es[k], k) by {
            if k < prev.len() {
                assert(prev[k] == es[k]);
                assert(entry_reads_back(t, prev[k], k));
                assert(readback(s.pinyin, s.line_pinyin, k + 1) == readback(
                    t.pinyin,
                    t.line_pinyin,
                    k + 1,
                ));
                assert(s.entries[k] == t.entries[k]);
            } else {
                assert(es[k] == e);
                assert(t.entries.len() == k);
            }
        }
    }
}

} // verus!
