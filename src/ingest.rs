use vstd::prelude::*;

use crate::ledger::LedgerEntry;

verus! {

/// The last journal page that a synchronization run asks for.
pub const LAST_PAGE: i32 = 99;

/// The page to fetch after `page`: the next one while the source still returned
/// a page and the last page is not reached; `None` ends the run.
pub fn next_page(page: i32, found: bool) -> (r: Option<i32>)
    ensures
        r == (if found && page < LAST_PAGE {
            Some((page + 1) as i32)
        } else {
            None::<i32>
        }),
{
    if found && page < LAST_PAGE {
        Some(page + 1)
    } else {
        None
    }
}

/// Whether the entry at `i` of a page is to be written: the store does not hold
/// its id and no earlier entry of the page carries the same id.
pub open spec fn is_fresh(page: Seq<LedgerEntry>, present: Seq<bool>, i: int) -> bool {
    &&& !present[i]
    &&& forall|j: int| 0 <= j < i ==> page[j].id != page[i].id
}

/// The entries of a page that are to be written, in page order; `present[i]`
/// tells whether the store already holds the id of `page[i]`.
pub open spec fn fresh_entries(page: Seq<LedgerEntry>, present: Seq<bool>) -> Seq<LedgerEntry>
    decreases page.len(),
{
    if page.len() == 0 {
        Seq::empty()
    } else {
        let n = page.len() - 1;
        let rest = fresh_entries(page.drop_last(), present);
        if is_fresh(page, present, n) {
            rest.push(page[n])
        } else {
            rest
        }
    }
}

/// Which entries of a page a store holding the ids `stored` already has.
pub open spec fn presence(stored: Set<i64>, page: Seq<LedgerEntry>) -> Seq<bool> {
    Seq::new(page.len(), |i: int| stored.contains(page[i].id))
}

/// The ids carried by a run of entries.
pub open spec fn ids_of(entries: Seq<LedgerEntry>) -> Set<i64> {
    Set::new(|id: i64| exists|i: int| 0 <= i < entries.len() && entries[i].id == id)
}

/// The ids a store holds after a page is ingested into it.
pub open spec fn store_after(stored: Set<i64>, page: Seq<LedgerEntry>) -> Set<i64> {
    stored.union(ids_of(fresh_entries(page, presence(stored, page))))
}

/// Picks the entries of a page that are to be written: those whose id the store
/// does not hold yet, each id once (its first occurrence). Writing exactly these
/// makes ingestion an upsert-by-absence, safe to repeat.
pub fn select_new_entries(page: Vec<LedgerEntry>, present: &Vec<bool>) -> (r: Vec<LedgerEntry>)
    requires
        present@.len() == page@.len(),
    ensures
        r@ == fresh_entries(page@, present@),
{
    let ghost orig = page@;
    let mut page = page;
    let mut seen: Vec<i64> = Vec::new();
    let mut out: Vec<LedgerEntry> = Vec::new();
    let n = page.len();
    let mut i: usize = 0;
    while i < n
        invariant
            n == orig.len() == present@.len(),
            i <= n,
            page@ == orig.subrange(i as int, n as int),
            seen@.len() == i,
            forall|j: int| 0 <= j < i ==> seen@[j] == orig[j].id,
            out@ == fresh_entries(orig.subrange(0, i as int), present@),
        decreases n - i,
    {
        let e = page.remove(0);
        assert(e == orig[i as int]);
        let mut dup = false;
        let mut j: usize = 0;
        while j < seen.len()
            invariant
                j <= seen@.len() == i,
                dup <==> exists|k: int| 0 <= k < j && seen@[k] == e.id,
            decreases seen@.len() - j,
        {
            if seen[j] == e.id {
                dup = true;
            }
            j = j + 1;
        }
        let ghost prefix = orig.subrange(0, i + 1);
        assert(prefix.drop_last() =~= orig.subrange(0, i as int));
        assert(is_fresh(prefix, present@, i as int) <==> (!present@[i as int] && !dup)) by {
            assert(prefix[i as int] == e);
            if dup {
                let k = choose|k: int| 0 <= k < i && seen@[k] == e.id;
                assert(prefix[k].id == prefix[i as int].id);
            } else {
                assert forall|j: int| 0 <= j < i implies prefix[j].id != prefix[i as int].id by {
                    assert(seen@[j] == orig[j].id);
                    assert(prefix[j] == orig[j]);
                }
            }
        }
        seen.push(e.id);
        if !present[i] && !dup {
            out.push(e);
        }
        i = i + 1;
    }
    assert(orig.subrange(0, n as int) =~= orig);
    out
}

proof fn lemma_fresh_entries_selected(page: Seq<LedgerEntry>, present: Seq<bool>, k: int)
    requires
        0 <= k < page.len(),
        is_fresh(page, present, k),
    ensures
        fresh_entries(page, present).contains(page[k]),
    decreases page.len(),
{
    let n = page.len() - 1;
    if k < n {
        assert(is_fresh(page.drop_last(), present, k));
        lemma_fresh_entries_selected(page.drop_last(), present, k);
        assert(page.drop_last()[k] == page[k]);
        let rest = fresh_entries(page.drop_last(), present);
        let m = choose|m: int| 0 <= m < rest.len() && rest[m] == page[k];
        assert(fresh_entries(page, present)[m] == page[k]);
    } else {
        assert(fresh_entries(page, present).last() == page[k]);
    }
}

proof fn lemma_fresh_entries_none_when_all_present(page: Seq<LedgerEntry>, present: Seq<bool>)
    requires
        page.len() <= present.len(),
        forall|i: int| 0 <= i < page.len() ==> present[i],
    ensures
        fresh_entries(page, present).len() == 0,
    decreases page.len(),
{
    if page.len() > 0 {
        lemma_fresh_entries_none_when_all_present(page.drop_last(), present);
    }
}

proof fn lemma_page_ids_stored(stored: Set<i64>, page: Seq<LedgerEntry>, i: int)
    requires
        0 <= i < page.len(),
    ensures
        store_after(stored, page).contains(page[i].id),
    decreases i,
{
    let present = presence(stored, page);
    if !stored.contains(page[i].id) {
        if exists|j: int| 0 <= j < i && page[j].id == page[i].id {
            let j = choose|j: int| 0 <= j < i && page[j].id == page[i].id;
            lemma_page_ids_stored(stored, page, j);
        } else {
            assert(is_fresh(page, present, i));
            lemma_fresh_entries_selected(page, present, i);
            let f = fresh_entries(page, present);
            let k = choose|k: int| 0 <= k < f.len() && f[k] == page[i];
            assert(ids_of(f).contains(page[i].id));
        }
    }
}

/// Ingesting the same page a second time writes nothing: no entry of the page is
/// fresh any more, and the set of stored ids (so their count) stays as it was.
pub proof fn lemma_ingest_idempotent(stored: Set<i64>, page: Seq<LedgerEntry>)
    ensures
        fresh_entries(page, presence(store_after(stored, page), page)).len() == 0,
        store_after(store_after(stored, page), page) == store_after(stored, page),
{
    let once = store_after(stored, page);
    assert forall|i: int| 0 <= i < page.len() implies #[trigger] presence(once, page)[i] by {
        lemma_page_ids_stored(stored, page, i);
    }
    lemma_fresh_entries_none_when_all_present(page, presence(once, page));
    let f = fresh_entries(page, presence(once, page));
    assert(ids_of(f) =~= Set::<i64>::empty());
    assert(store_after(once, page) =~= once);
}

} // verus!
