//! The flat catalog scanner: given the direct entries of one directory,
//! keeps the regular files whose name carries the required suffix and
//! whose metadata could be read, and returns their records ascending by
//! name in a uniform result envelope.

use vstd::prelude::*;
use vstd::pervasive::arbitrary;
use crate::model::{CatalogedFile, EntryKind, FileListResult, RawEntry, file_list_wf};
use crate::order::{lemma_spec_sort_props, sort_by_name, sorted_by_name, spec_sort};
use crate::text::{str_has_suffix, suffix_matches};

verus! {

/// A flat scan keeps an entry exactly when it is a regular file, its
/// name ends with the required suffix, and its metadata was readable.
pub open spec fn flat_qualifies(e: RawEntry, suffix: Seq<char>) -> bool {
    &&& e.kind == EntryKind::File
    &&& e.meta is Some
    &&& suffix_matches(e.name@, suffix)
}

/// The record a kept entry turns into: bare name, byte length, and the
/// opaque modification-time string.
pub open spec fn flat_record(e: RawEntry) -> CatalogedFile {
    match e.meta {
        Some(m) => CatalogedFile { name: e.name, size_bytes: m.size_bytes, modified_at: m.modified_at },
        None => arbitrary(),
    }
}

/// The records of the kept entries, in listing order.
pub open spec fn flat_records(entries: Seq<RawEntry>, suffix: Seq<char>) -> Seq<CatalogedFile>
    decreases entries.len(),
{
    if entries.len() == 0 {
        Seq::empty()
    } else {
        let rest = flat_records(entries.drop_last(), suffix);
        if flat_qualifies(entries.last(), suffix) {
            rest.push(flat_record(entries.last()))
        } else {
            rest
        }
    }
}

/// Everything a successful flat scan returns: the kept records,
/// ascending by name.
pub open spec fn flat_catalog(entries: Seq<RawEntry>, suffix: Seq<char>) -> Seq<CatalogedFile> {
    spec_sort(flat_records(entries, suffix))
}

/// A record is in the kept sequence exactly when some listed entry
/// qualifies and turns into it.
pub proof fn lemma_flat_records_membership(
    entries: Seq<RawEntry>,
    suffix: Seq<char>,
    f: CatalogedFile,
)
    ensures
        flat_records(entries, suffix).contains(f) <==> exists|i: int|
            0 <= i < entries.len() && flat_qualifies(entries[i], suffix) && f == flat_record(
                entries[i],
            ),
    decreases entries.len(),
{
    if entries.len() > 0 {
        let d = entries.drop_last();
        lemma_flat_records_membership(d, suffix, f);
        let rest = flat_records(d, suffix);
        if flat_qualifies(entries.last(), suffix) {
            assert(flat_records(entries, suffix) == rest.push(flat_record(entries.last())));
            if flat_records(entries, suffix).contains(f) {
                let j = choose|j: int|
                    0 <= j < rest.push(flat_record(entries.last())).len() && rest.push(
                        flat_record(entries.last()),
                    )[j] == f;
                if j < rest.len() {
                    assert(rest.contains(f));
                    let i = choose|i: int|
                        0 <= i < d.len() && flat_qualifies(d[i], suffix) && f == flat_record(d[i]);
                    assert(entries[i] == d[i]);
                } else {
                    assert(f == flat_record(entries.last()));
                    assert(entries[entries.len() - 1] == entries.last());
                }
            }
            if exists|i: int|
                0 <= i < entries.len() && flat_qualifies(entries[i], suffix) && f == flat_record(
                    entries[i],
                ) {
                let i = choose|i: int|
                    0 <= i < entries.len() && flat_qualifies(entries[i], suffix) && f
                        == flat_record(entries[i]);
                if i < entries.len() - 1 {
                    assert(d[i] == entries[i]);
                    assert(rest.contains(f));
                    let j = choose|j: int| 0 <= j < rest.len() && rest[j] == f;
                    assert(rest.push(flat_record(entries.last()))[j] == f);
                } else {
                    assert(rest.push(flat_record(entries.last())).last() == f);
                }
            }
        } else {
            assert(flat_records(entries, suffix) == rest);
            if exists|i: int|
                0 <= i < entries.len() && flat_qualifies(entries[i], suffix) && f == flat_record(
                    entries[i],
                ) {
                let i = choose|i: int|
                    0 <= i < entries.len() && flat_qualifies(entries[i], suffix) && f
                        == flat_record(entries[i]);
                assert(i < entries.len() - 1);
                assert(d[i] == entries[i]);
            }
            if rest.contains(f) {
                let i = choose|i: int|
                    0 <= i < d.len() && flat_qualifies(d[i], suffix) && f == flat_record(d[i]);
                assert(entries[i] == d[i]);
            }
        }
    }
}

/// What a flat scan returns is ascending by name, holds exactly the
/// kept records, and a record appears exactly when a listed entry
/// qualifies and turns into it.
pub proof fn lemma_flat_catalog_exact(entries: Seq<RawEntry>, suffix: Seq<char>)
    ensures
        sorted_by_name(flat_catalog(entries, suffix)),
        flat_catalog(entries, suffix).to_multiset() == flat_records(entries, suffix).to_multiset(),
        flat_catalog(entries, suffix).len() == flat_records(entries, suffix).len(),
        forall|f: CatalogedFile|
            flat_catalog(entries, suffix).contains(f) <==> exists|i: int|
                0 <= i < entries.len() && flat_qualifies(entries[i], suffix) && f == flat_record(
                    entries[i],
                ),
{
    broadcast use vstd::seq_lib::group_to_multiset_ensures;

    lemma_spec_sort_props(flat_records(entries, suffix));
    assert forall|f: CatalogedFile|
        flat_catalog(entries, suffix).contains(f) <==> exists|i: int|
            0 <= i < entries.len() && flat_qualifies(entries[i], suffix) && f == flat_record(
                entries[i],
            ) by {
        lemma_flat_records_membership(entries, suffix, f);
        assert(flat_catalog(entries, suffix).contains(f) <==> flat_catalog(
            entries,
            suffix,
        ).to_multiset().count(f) > 0);
        assert(flat_records(entries, suffix).contains(f) <==> flat_records(
            entries,
            suffix,
        ).to_multiset().count(f) > 0);
    }
}

/// An empty directory (for instance one the scan just created) yields
/// an empty catalog.
pub proof fn lemma_flat_catalog_empty(suffix: Seq<char>)
    ensures
        flat_catalog(Seq::<RawEntry>::empty(), suffix) == Seq::<CatalogedFile>::empty(),
{
}

/// Two flat scans of one directory state agree exactly, content and
/// order: the catalog is a function of the listing alone.
pub proof fn lemma_flat_catalog_idempotent(
    a: Seq<CatalogedFile>,
    b: Seq<CatalogedFile>,
    entries: Seq<RawEntry>,
    suffix: Seq<char>,
)
    requires
        a == flat_catalog(entries, suffix),
        b == flat_catalog(entries, suffix),
    ensures
        a == b,
{
}

/// Collects the records of the kept entries, in listing order.
fn collect_flat(entries: Vec<RawEntry>, suffix: &str) -> (r: Vec<CatalogedFile>)
    ensures
        r@ == flat_records(entries@, suffix@),
{
    let ghost orig = entries@;
    let mut src = entries;
    let mut acc: Vec<CatalogedFile> = Vec::new();
    proof {
        assert(orig.subrange(0, 0) =~= Seq::<RawEntry>::empty());
        assert(orig.subrange(0, orig.len() as int) =~= orig);
    }
    while src.len() > 0
        invariant
            src@.len() <= orig.len(),
            src@ == orig.subrange(orig.len() - src@.len(), orig.len() as int),
            acc@ == flat_records(orig.subrange(0, orig.len() - src@.len()), suffix@),
        decreases src@.len(),
    {
        let ghost k = orig.len() - src@.len();
        let e = src.remove(0);
        proof {
            assert(e == orig[k as int]);
            assert(src@ =~= orig.subrange(k as int + 1, orig.len() as int));
            assert(orig.subrange(0, k as int + 1).drop_last() =~= orig.subrange(0, k as int));
            assert(orig.subrange(0, k as int + 1).last() == orig[k as int]);
        }
        let is_file = match e.kind {
            EntryKind::File => true,
            _ => false,
        };
        if is_file && str_has_suffix(e.name.as_str(), suffix) {
            match e.meta {
                Some(m) => {
                    acc.push(
                        CatalogedFile {
                            name: e.name,
                            size_bytes: m.size_bytes,
                            modified_at: m.modified_at,
                        },
                    );
                },
                None => {},
            }
        }
    }
    proof {
        assert(orig.subrange(0, orig.len() as int) =~= orig);
    }
    acc
}

/// The flat catalog scanner. `listing` is what reading the root
/// directory produced: its direct entries, or the message of the
/// failure that aborted the scan (a failure to create or to list the
/// root). On a listing, the scan always succeeds and returns exactly
/// the qualifying records, ascending by name; on a failure it returns
/// the failure envelope with that message and no files.
pub fn scan_flat(listing: Result<Vec<RawEntry>, String>, suffix: &str) -> (r: FileListResult)
    ensures
        file_list_wf(r),
        r.success == listing is Ok,
        (match listing {
            Ok(entries) => r.files@ == flat_catalog(entries@, suffix@),
            Err(msg) => r.error == Some(msg),
        }),
{
    match listing {
        Ok(entries) => {
            let recs = collect_flat(entries, suffix);
            let files = sort_by_name(recs);
            FileListResult { success: true, files, error: None }
        },
        Err(msg) => FileListResult { success: false, files: Vec::new(), error: Some(msg) },
    }
}

} // verus!
