//! The module catalog scanner: given the immediate subdirectories of a
//! module root (each with its own direct entries), keeps in each the
//! regular files whose name ends with one of the required suffixes,
//! drops every subdirectory that contributes no file, and returns the
//! surviving modules sorted by name, each with its files sorted by name.

use vstd::prelude::*;
use vstd::pervasive::arbitrary;
use crate::model::{EntryKind, Module, ModuleFile, ModuleListResult, ModuleListing, RawEntry,
    module_list_wf};
use crate::order::{NameKeyed, lemma_spec_sort_props, sort_by_name, sorted_by_name, spec_sort};
use crate::text::{lex_leq, str_has_suffix, suffix_matches};

verus! {

/// The suffix class a file name falls in: the index of the first
/// suffix in the scan's list that the name ends with.
pub open spec fn class_of(name: Seq<char>, suffixes: Seq<String>) -> Option<int>
    decreases suffixes.len(),
{
    if suffixes.len() == 0 {
        None
    } else if suffix_matches(name, suffixes[0]@) {
        Some(0)
    } else {
        match class_of(name, suffixes.drop_first()) {
            Some(k) => Some(k + 1),
            None => None,
        }
    }
}

/// The class of a name is the first matching suffix.
pub proof fn lemma_class_of_first(name: Seq<char>, suffixes: Seq<String>, i: int)
    requires
        0 <= i < suffixes.len(),
        suffix_matches(name, suffixes[i]@),
        forall|j: int| 0 <= j < i ==> !suffix_matches(name, #[trigger] suffixes[j]@),
    ensures
        class_of(name, suffixes) == Some(i),
    decreases i,
{
    if i > 0 {
        let d = suffixes.drop_first();
        assert(!suffix_matches(name, suffixes[0]@));
        assert forall|j: int| 0 <= j < i - 1 implies !suffix_matches(name, #[trigger] d[j]@) by {
            assert(d[j] == suffixes[j + 1]);
        }
        assert(d[i - 1] == suffixes[i]);
        lemma_class_of_first(name, d, i - 1);
    }
}

/// A name matching no suffix has no class.
pub proof fn lemma_class_of_none(name: Seq<char>, suffixes: Seq<String>)
    requires
        forall|j: int| 0 <= j < suffixes.len() ==> !suffix_matches(name, #[trigger] suffixes[j]@),
    ensures
        class_of(name, suffixes) is None,
    decreases suffixes.len(),
{
    if suffixes.len() > 0 {
        let d = suffixes.drop_first();
        assert forall|j: int| 0 <= j < d.len() implies !suffix_matches(name, #[trigger] d[j]@) by {
            assert(d[j] == suffixes[j + 1]);
        }
        lemma_class_of_none(name, d);
    }
}

/// Finds the suffix class of a file name.
pub fn class_of_name(name: &str, suffixes: &Vec<String>) -> (r: Option<usize>)
    ensures
        (match r {
            Some(k) => class_of(name@, suffixes@) == Some(k as int),
            None => class_of(name@, suffixes@) is None,
        }),
{
    let mut j: usize = 0;
    while j < suffixes.len()
        invariant
            j <= suffixes@.len(),
            forall|t: int| 0 <= t < j ==> !suffix_matches(name@, #[trigger] suffixes@[t]@),
        decreases suffixes@.len() - j,
    {
        let s: &String = &suffixes[j];
        if str_has_suffix(name, s.as_str()) {
            proof {
                lemma_class_of_first(name@, suffixes@, j as int);
            }
            return Some(j);
        }
        j = j + 1;
    }
    proof {
        lemma_class_of_none(name@, suffixes@);
    }
    None
}

/// A module scan keeps an entry exactly when it is a regular file, its
/// name ends with one of the required suffixes, and its metadata was
/// readable.
pub open spec fn module_qualifies(e: RawEntry, suffixes: Seq<String>) -> bool {
    &&& e.kind == EntryKind::File
    &&& e.meta is Some
    &&& class_of(e.name@, suffixes) is Some
}

/// The record a kept module entry turns into, tagged with its class.
pub open spec fn module_record(e: RawEntry, suffixes: Seq<String>) -> ModuleFile {
    match (e.meta, class_of(e.name@, suffixes)) {
        (Some(m), Some(k)) => ModuleFile {
            name: e.name,
            class: k as usize,
            size_bytes: m.size_bytes,
            modified_at: m.modified_at,
        },
        _ => arbitrary(),
    }
}

/// The records of the kept entries of one module directory, in listing
/// order.
pub open spec fn module_files(entries: Seq<RawEntry>, suffixes: Seq<String>) -> Seq<ModuleFile>
    decreases entries.len(),
{
    if entries.len() == 0 {
        Seq::empty()
    } else {
        let rest = module_files(entries.drop_last(), suffixes);
        if module_qualifies(entries.last(), suffixes) {
            rest.push(module_record(entries.last(), suffixes))
        } else {
            rest
        }
    }
}

/// A module directory contributes a file exactly when one of its
/// entries qualifies.
pub proof fn lemma_module_files_count(entries: Seq<RawEntry>, suffixes: Seq<String>)
    ensures
        (module_files(entries, suffixes).len() > 0) <==> (exists|i: int|
            0 <= i < entries.len() && module_qualifies(#[trigger] entries[i], suffixes)),
    decreases entries.len(),
{
    if entries.len() > 0 {
        let d = entries.drop_last();
        lemma_module_files_count(d, suffixes);
        if module_qualifies(entries.last(), suffixes) {
            assert(entries[entries.len() - 1] == entries.last());
        } else {
            if exists|i: int|
                0 <= i < entries.len() && module_qualifies(#[trigger] entries[i], suffixes) {
                let i = choose|i: int|
                    0 <= i < entries.len() && module_qualifies(#[trigger] entries[i], suffixes);
                assert(i < entries.len() - 1);
                assert(d[i] == entries[i]);
            }
            if exists|i: int| 0 <= i < d.len() && module_qualifies(#[trigger] d[i], suffixes) {
                let i = choose|i: int|
                    0 <= i < d.len() && module_qualifies(#[trigger] d[i], suffixes);
                assert(entries[i] == d[i]);
            }
        }
    }
}

/// A module directory survives the scan exactly when it contributes at
/// least one qualifying file.
pub open spec fn listing_kept(l: ModuleListing, suffixes: Seq<String>) -> bool {
    module_files(l.entries@, suffixes).len() > 0
}

/// The surviving module directories, in listing order.
pub open spec fn kept_listings(ls: Seq<ModuleListing>, suffixes: Seq<String>) -> Seq<ModuleListing>
    decreases ls.len(),
{
    if ls.len() == 0 {
        Seq::empty()
    } else {
        let rest = kept_listings(ls.drop_last(), suffixes);
        if listing_kept(ls.last(), suffixes) {
            rest.push(ls.last())
        } else {
            rest
        }
    }
}

/// Every surviving module directory contributes a file.
proof fn lemma_kept_all_qualify(ls: Seq<ModuleListing>, suffixes: Seq<String>)
    ensures
        forall|i: int|
            0 <= i < kept_listings(ls, suffixes).len() ==> listing_kept(
                #[trigger] kept_listings(ls, suffixes)[i],
                suffixes,
            ),
    decreases ls.len(),
{
    if ls.len() > 0 {
        let d = ls.drop_last();
        lemma_kept_all_qualify(d, suffixes);
        let rest = kept_listings(d, suffixes);
        if listing_kept(ls.last(), suffixes) {
            assert(kept_listings(ls, suffixes) == rest.push(ls.last()));
            assert forall|i: int| 0 <= i < rest.push(ls.last()).len() implies listing_kept(
                #[trigger] rest.push(ls.last())[i],
                suffixes,
            ) by {
                if i < rest.len() {
                    assert(rest.push(ls.last())[i] == rest[i]);
                } else {
                    assert(rest.push(ls.last())[i] == ls.last());
                }
            }
        }
    }
}

/// The surviving module directories, sorted ascending by name: the
/// skeleton of what a successful module scan returns.
pub open spec fn sorted_kept(ls: Seq<ModuleListing>, suffixes: Seq<String>) -> Seq<ModuleListing> {
    spec_sort(kept_listings(ls, suffixes))
}

/// What a successful module scan returns: one module per surviving
/// directory, in directory-name order, each carrying that directory's
/// qualifying files sorted by name; and never an empty module.
pub open spec fn module_catalog_post(
    modules: Seq<Module>,
    ls: Seq<ModuleListing>,
    suffixes: Seq<String>,
) -> bool {
    let sq = sorted_kept(ls, suffixes);
    &&& modules.len() == sq.len()
    &&& forall|i: int|
        0 <= i < sq.len() ==> (#[trigger] modules[i]).name == sq[i].name && modules[i].files@
            == spec_sort(module_files(sq[i].entries@, suffixes))
    &&& forall|i: int| 0 <= i < modules.len() ==> (#[trigger] modules[i]).files@.len() > 0
}

/// Collects the records of the kept entries of one module directory,
/// in listing order.
fn collect_module_files(entries: Vec<RawEntry>, suffixes: &Vec<String>) -> (r: Vec<ModuleFile>)
    ensures
        r@ == module_files(entries@, suffixes@),
{
    let ghost orig = entries@;
    let mut src = entries;
    let mut acc: Vec<ModuleFile> = Vec::new();
    proof {
        assert(orig.subrange(0, 0) =~= Seq::<RawEntry>::empty());
        assert(orig.subrange(0, orig.len() as int) =~= orig);
    }
    while src.len() > 0
        invariant
            src@.len() <= orig.len(),
            src@ == orig.subrange(orig.len() - src@.len(), orig.len() as int),
            acc@ == module_files(orig.subrange(0, orig.len() - src@.len()), suffixes@),
        decreases src@.len(),
    {
        let ghost k = orig.len() - src@.len();
        let e = src.remove(0);
        proof {
            assert(e == orig[k as int]);
            assert(src@ =~= orig.subrange(k as int + 1, orig.len() as int));
            assert(orig.subrange(0, k as int + 1).drop_last() =~= orig.subrange(0, k as int));
            assert(orig.subrange(0, k as int + 1).last() == orig[k as int]);
        }
        let is_file = match e.kind {
            EntryKind::File => true,
            _ => false,
        };
        if is_file {
            let cls = class_of_name(e.name.as_str(), suffixes);
            match (e.meta, cls) {
                (Some(m), Some(c)) => {
                    acc.push(
                        ModuleFile {
                            name: e.name,
                            class: c,
                            size_bytes: m.size_bytes,
                            modified_at: m.modified_at,
                        },
                    );
                },
                _ => {},
            }
        }
    }
    proof {
        assert(orig.subrange(0, orig.len() as int) =~= orig);
    }
    acc
}

/// Decides whether a module directory contributes at least one
/// qualifying file.
fn listing_has_files(l: &ModuleListing, suffixes: &Vec<String>) -> (r: bool)
    ensures
        r == listing_kept(*l, suffixes@),
{
    proof {
        lemma_module_files_count(l.entries@, suffixes@);
    }
    let mut i: usize = 0;
    while i < l.entries.len()
        invariant
            i <= l.entries@.len(),
            forall|t: int| 0 <= t < i ==> !module_qualifies(#[trigger] l.entries@[t], suffixes@),
        decreases l.entries@.len() - i,
    {
        let e = &l.entries[i];
        let is_file = match e.kind {
            EntryKind::File => true,
            _ => false,
        };
        if is_file && e.meta.is_some() {
            let cls = class_of_name(e.name.as_str(), suffixes);
            if cls.is_some() {
                proof {
                    lemma_module_files_count(l.entries@, suffixes@);
                    assert(module_qualifies(l.entries@[i as int], suffixes@));
                    assert(exists|t: int|
                        0 <= t < l.entries@.len() && module_qualifies(
                            #[trigger] l.entries@[t],
                            suffixes@,
                        ));
                }
                return true;
            }
        }
        i = i + 1;
    }
    proof {
        lemma_module_files_count(l.entries@, suffixes@);
    }
    false
}

/// The module catalog scanner. `listing` is what reading the module
/// root produced: one `ModuleListing` per immediate subdirectory (with
/// the entries read from it, or none where listing it failed), or the
/// message of the failure that aborted the scan. On a listing, the
/// scan always succeeds: every subdirectory with at least one
/// qualifying file becomes a module, every other subdirectory is
/// dropped, modules come sorted by name and their files sorted by
/// name. On a failure it returns the failure envelope with that
/// message and no modules.
pub fn scan_modules(
    listing: Result<Vec<ModuleListing>, String>,
    suffixes: &Vec<String>,
) -> (r: ModuleListResult)
    ensures
        module_list_wf(r),
        r.success == listing is Ok,
        (match listing {
            Ok(ls) => module_catalog_post(r.modules@, ls@, suffixes@),
            Err(msg) => r.error == Some(msg),
        }),
{
    match listing {
        Ok(ls) => {
            let ghost origl = ls@;
            let mut srcl = ls;
            let mut kept: Vec<ModuleListing> = Vec::new();
            proof {
                assert(origl.subrange(0, 0) =~= Seq::<ModuleListing>::empty());
                assert(origl.subrange(0, origl.len() as int) =~= origl);
            }
            while srcl.len() > 0
                invariant
                    srcl@.len() <= origl.len(),
                    srcl@ == origl.subrange(origl.len() - srcl@.len(), origl.len() as int),
                    kept@ == kept_listings(
                        origl.subrange(0, origl.len() - srcl@.len()),
                        suffixes@,
                    ),
                decreases srcl@.len(),
            {
                let ghost k = origl.len() - srcl@.len();
                let l = srcl.remove(0);
                proof {
                    assert(l == origl[k as int]);
                    assert(srcl@ =~= origl.subrange(k as int + 1, origl.len() as int));
                    assert(origl.subrange(0, k as int + 1).drop_last() =~= origl.subrange(
                        0,
                        k as int,
                    ));
                    assert(origl.subrange(0, k as int + 1).last() == origl[k as int]);
                }
                if listing_has_files(&l, suffixes) {
                    kept.push(l);
                }
            }
            proof {
                assert(origl.subrange(0, origl.len() as int) =~= origl);
            }
            let sortedq = sort_by_name(kept);
            let ghost sq = sorted_kept(origl, suffixes@);
            let mut srcm = sortedq;
            let mut out: Vec<Module> = Vec::new();
            while srcm.len() > 0
                invariant
                    srcm@.len() <= sq.len(),
                    srcm@ == sq.subrange(sq.len() - srcm@.len(), sq.len() as int),
                    out@.len() == sq.len() - srcm@.len(),
                    forall|i: int|
                        0 <= i < out@.len() ==> (#[trigger] out@[i]).name == sq[i].name
                            && out@[i].files@ == spec_sort(
                            module_files(sq[i].entries@, suffixes@),
                        ),
                decreases srcm@.len(),
            {
                let ghost j = sq.len() - srcm@.len();
                let l = srcm.remove(0);
                proof {
                    assert(l == sq[j as int]);
                    assert(srcm@ =~= sq.subrange(j as int + 1, sq.len() as int));
                }
                let files = collect_module_files(l.entries, suffixes);
                let files_sorted = sort_by_name(files);
                out.push(Module { name: l.name, files: files_sorted });
            }
            proof {
                broadcast use vstd::seq_lib::group_to_multiset_ensures;

                lemma_spec_sort_props(kept_listings(origl, suffixes@));
                lemma_kept_all_qualify(origl, suffixes@);
                assert forall|i: int| 0 <= i < out@.len() implies (#[trigger] out@[i]).files@.len()
                    > 0 by {
                    assert(sq.contains(sq[i]));
                    assert(kept_listings(origl, suffixes@).to_multiset().count(sq[i]) > 0);
                    assert(kept_listings(origl, suffixes@).contains(sq[i]));
                    let t = choose|t: int|
                        0 <= t < kept_listings(origl, suffixes@).len() && kept_listings(
                            origl,
                            suffixes@,
                        )[t] == sq[i];
                    assert(listing_kept(sq[i], suffixes@));
                    lemma_spec_sort_props(module_files(sq[i].entries@, suffixes@));
                }
            }
            ModuleListResult { success: true, modules: out, error: None }
        },
        Err(msg) => ModuleListResult { success: false, modules: Vec::new(), error: Some(msg) },
    }
}

/// Module dropping: a module directory with no qualifying files never
/// appears — adding such a directory to the listing leaves the scan's
/// result unchanged.
pub proof fn lemma_empty_module_dropped(
    ls: Seq<ModuleListing>,
    l: ModuleListing,
    suffixes: Seq<String>,
)
    requires
        module_files(l.entries@, suffixes).len() == 0,
    ensures
        sorted_kept(ls.push(l), suffixes) == sorted_kept(ls, suffixes),
{
    assert(ls.push(l).drop_last() =~= ls);
    assert(ls.push(l).last() == l);
}

/// A module root with no subdirectories (for instance one the scan
/// just created) yields an empty catalog.
pub proof fn lemma_module_catalog_empty(modules: Seq<Module>, suffixes: Seq<String>)
    requires
        module_catalog_post(modules, Seq::<ModuleListing>::empty(), suffixes),
    ensures
        modules == Seq::<Module>::empty(),
{
    assert(modules =~= Seq::<Module>::empty());
}

/// Two module scans of one directory state agree, module for module:
/// same names, same files, same order.
pub proof fn lemma_module_catalog_idempotent(
    m1: Seq<Module>,
    m2: Seq<Module>,
    ls: Seq<ModuleListing>,
    suffixes: Seq<String>,
)
    requires
        module_catalog_post(m1, ls, suffixes),
        module_catalog_post(m2, ls, suffixes),
    ensures
        m1.len() == m2.len(),
        forall|i: int|
            0 <= i < m1.len() ==> (#[trigger] m1[i]).name == m2[i].name && m1[i].files@
                == m2[i].files@,
{
}

/// What a module scan returns is sorted: modules ascend by name, and
/// the files of each module ascend by name.
pub proof fn lemma_module_catalog_sorted(
    modules: Seq<Module>,
    ls: Seq<ModuleListing>,
    suffixes: Seq<String>,
)
    requires
        module_catalog_post(modules, ls, suffixes),
    ensures
        sorted_by_name(modules),
        forall|i: int| 0 <= i < modules.len() ==> sorted_by_name((#[trigger] modules[i]).files@),
{
    lemma_spec_sort_props(kept_listings(ls, suffixes));
    let sq = sorted_kept(ls, suffixes);
    assert forall|i: int, j: int| 0 <= i < j < modules.len() implies lex_leq(
        modules[i].key(),
        modules[j].key(),
    ) by {
        assert(lex_leq(sq[i].key(), sq[j].key()));
        assert(modules[i].name == sq[i].name);
        assert(modules[j].name == sq[j].name);
    }
    assert forall|i: int| 0 <= i < modules.len() implies sorted_by_name(
        (#[trigger] modules[i]).files@,
    ) by {
        lemma_spec_sort_props(module_files(sq[i].entries@, suffixes));
    }
}

} // verus!
