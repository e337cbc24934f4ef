//! The recursive scan from a listed directory tree to a declaration tree.

use vstd::prelude::*;
use crate::ident::{identifier_for, ident_of};
use crate::names::{source_stem, stem_with_extension};
use crate::tree::{
    decl_view, decls_view, lemma_decls_view_len, lemma_decls_view_push, Decl, DeclarationEntry,
    EntryKind, FsEntry, Listing, ScanError, ScanFailure,
};

verus! {

/// Whether `name` is one of the ignored names.
pub open spec fn is_ignored(ignore: Seq<Seq<char>>, name: Seq<char>) -> bool {
    ignore.contains(name)
}

/// The names held by a list of strings.
pub open spec fn names_view(v: Seq<String>) -> Seq<Seq<char>> {
    v.map_values(|s: String| s@)
}

/// The failure reported for an entry whose name yields no identifier.
pub open spec fn invalid_name(e: FsEntry) -> ScanFailure {
    ScanFailure::InvalidIdentifier { path: e.path@, original: e.name@ }
}

/// What the entries `es` of one directory contribute, in listing order; the
/// first failure in that order aborts the whole scan.
pub open spec fn scan_entries(
    es: Seq<FsEntry>,
    ignore: Seq<Seq<char>>,
    ext: Seq<char>,
    levels: nat,
) -> Result<
    Seq<Decl>,
    ScanFailure,
>
    decreases es,
{
    if es.len() == 0 {
        Ok(seq![])
    } else {
        match scan_entries(es.subrange(0, es.len() - 1), ignore, ext, levels) {
            Err(f) => Err(f),
            Ok(front) => match entry_decls(es[es.len() - 1], ignore, ext, levels) {
                Err(f) => Err(f),
                Ok(d) => Ok(front + d),
            },
        }
    }
}

/// What one entry contributes: nothing when its name is ignored; a leaf for a
/// file with the accepted extension; a namespace for a directory whose own
/// scan contributes something; nothing for anything else. `levels` is how many
/// more levels of directories may be entered: a directory met when none is
/// left fails the scan with `TooDeep`.
pub open spec fn entry_decls(
    e: FsEntry,
    ignore: Seq<Seq<char>>,
    ext: Seq<char>,
    levels: nat,
) -> Result<
    Seq<Decl>,
    ScanFailure,
>
    decreases e,
{
    if is_ignored(ignore, e.name@) {
        Ok(seq![])
    } else if e.kind is Dir && levels == 0 {
        Err(ScanFailure::TooDeep { path: e.path@ })
    } else {
        match e.kind {
            EntryKind::Dir(Listing::Unreadable(cause)) => Err(
                ScanFailure::Unreadable { path: e.path@, cause: cause@ },
            ),
            EntryKind::Dir(Listing::Entries(v)) => match scan_entries(
                v@,
                ignore,
                ext,
                (levels - 1) as nat,
            ) {
                Err(f) => Err(f),
                Ok(children) => if children.len() == 0 {
                    Ok(seq![])
                } else {
                    match ident_of(e.name@) {
                        Some(id) => Ok(seq![Decl::Namespace(id, children)]),
                        None => Err(invalid_name(e)),
                    }
                },
            },
            EntryKind::File => match source_stem(e.name@, ext) {
                None => Ok(seq![]),
                Some(stem) => match ident_of(stem) {
                    Some(id) => Ok(seq![Decl::Leaf(id)]),
                    None => Err(invalid_name(e)),
                },
            },
            EntryKind::Other => Ok(seq![]),
        }
    }
}

/// The scan of the directory `root`: the contributions of its entries, or
/// `NotADirectory` when `root` is not a directory. At most `max_depth` levels
/// of subdirectories below `root` are entered.
pub open spec fn scan_root(
    root: FsEntry,
    ignore: Seq<Seq<char>>,
    ext: Seq<char>,
    max_depth: nat,
) -> Result<
    Seq<Decl>,
    ScanFailure,
> {
    match root.kind {
        EntryKind::Dir(Listing::Entries(v)) => scan_entries(v@, ignore, ext, max_depth),
        EntryKind::Dir(Listing::Unreadable(cause)) => Err(
            ScanFailure::Unreadable { path: root.path@, cause: cause@ },
        ),
        _ => Err(ScanFailure::NotADirectory { path: root.path@ }),
    }
}

/// The value of a scan's result.
pub open spec fn scan_view(r: Result<Vec<DeclarationEntry>, ScanError>) -> Result<
    Seq<Decl>,
    ScanFailure,
> {
    match r {
        Ok(v) => Ok(decls_view(v@)),
        Err(e) => Err(e@),
    }
}

proof fn lemma_failure_persists(
    es: Seq<FsEntry>,
    j: int,
    ignore: Seq<Seq<char>>,
    ext: Seq<char>,
    levels: nat,
)
    requires
        0 <= j <= es.len(),
        scan_entries(es.subrange(0, j), ignore, ext, levels) is Err,
    ensures
        scan_entries(es, ignore, ext, levels) == scan_entries(
            es.subrange(0, j),
            ignore,
            ext,
            levels,
        ),
    decreases es.len(),
{
    if j == es.len() {
        assert(es.subrange(0, j) =~= es);
    } else {
        let front = es.subrange(0, es.len() - 1);
        assert(front.subrange(0, j) =~= es.subrange(0, j));
        lemma_failure_persists(front, j, ignore, ext, levels);
    }
}

/// Whether `e` holds no source file anywhere beneath it: it is ignored, a file
/// without the accepted extension, something other than a file or directory,
/// or a readable directory within `levels` levels whose entries all hold none.
pub open spec fn holds_no_sources(
    e: FsEntry,
    ignore: Seq<Seq<char>>,
    ext: Seq<char>,
    levels: nat,
) -> bool
    decreases e,
{
    if is_ignored(ignore, e.name@) {
        true
    } else if e.kind is Dir && levels == 0 {
        false
    } else {
        match e.kind {
            EntryKind::File => source_stem(e.name@, ext) is None,
            EntryKind::Other => true,
            EntryKind::Dir(Listing::Unreadable(_)) => false,
            EntryKind::Dir(Listing::Entries(v)) => all_hold_no_sources(
                v@,
                ignore,
                ext,
                (levels - 1) as nat,
            ),
        }
    }
}

/// Whether none of the entries `es` holds a source file anywhere beneath it.
pub open spec fn all_hold_no_sources(
    es: Seq<FsEntry>,
    ignore: Seq<Seq<char>>,
    ext: Seq<char>,
    levels: nat,
) -> bool
    decreases es,
{
    if es.len() == 0 {
        true
    } else {
        all_hold_no_sources(es.subrange(0, es.len() - 1), ignore, ext, levels) && holds_no_sources(
            es[es.len() - 1],
            ignore,
            ext,
            levels,
        )
    }
}

/// A directory whose entries all carry ignored names scans to no
/// declarations, and not to an error, whatever lies beneath those entries.
pub proof fn lemma_all_ignored_scans_empty(
    root: FsEntry,
    ignore: Seq<Seq<char>>,
    ext: Seq<char>,
    levels: nat,
)
    requires
        root.kind matches EntryKind::Dir(Listing::Entries(v)) && forall|i: int|
            0 <= i < v@.len() ==> is_ignored(ignore, #[trigger] v@[i].name@),
    ensures
        scan_root(root, ignore, ext, levels) == Ok::<Seq<Decl>, ScanFailure>(seq![]),
{
    if let EntryKind::Dir(Listing::Entries(v)) = root.kind {
        lemma_ignored_entries_empty(v@, ignore, ext, levels);
    }
}

proof fn lemma_ignored_entries_empty(
    es: Seq<FsEntry>,
    ignore: Seq<Seq<char>>,
    ext: Seq<char>,
    levels: nat,
)
    requires
        forall|i: int| 0 <= i < es.len() ==> is_ignored(ignore, #[trigger] es[i].name@),
    ensures
        scan_entries(es, ignore, ext, levels) == Ok::<Seq<Decl>, ScanFailure>(seq![]),
    decreases es.len(),
{
    if es.len() > 0 {
        let front = es.subrange(0, es.len() - 1);
        assert forall|i: int| 0 <= i < front.len() implies is_ignored(
            ignore,
            #[trigger] front[i].name@,
        ) by {
            assert(front[i] == es[i]);
        }
        lemma_ignored_entries_empty(front, ignore, ext, levels);
        assert(is_ignored(ignore, es[es.len() - 1].name@));
        assert(entry_decls(es[es.len() - 1], ignore, ext, levels) == Ok::<Seq<Decl>, ScanFailure>(
            seq![],
        ));
        assert(Seq::<Decl>::empty() + Seq::<Decl>::empty() =~= Seq::<Decl>::empty());
    }
}

/// In a directory holding one file with the accepted extension and one entry
/// with an ignored name, in either order, the scan yields exactly one leaf,
/// for the file, or fails on the file's name; the ignored entry never shows.
pub proof fn lemma_source_beside_ignored(
    file: FsEntry,
    other: FsEntry,
    ignore: Seq<Seq<char>>,
    ext: Seq<char>,
    levels: nat,
)
    requires
        file.kind is File,
        !is_ignored(ignore, file.name@),
        source_stem(file.name@, ext) is Some,
        is_ignored(ignore, other.name@),
    ensures
        ({
            let expected = match ident_of(source_stem(file.name@, ext)->0) {
                Some(id) => Ok::<Seq<Decl>, ScanFailure>(seq![Decl::Leaf(id)]),
                None => Err(invalid_name(file)),
            };
            &&& scan_entries(seq![file, other], ignore, ext, levels) == expected
            &&& scan_entries(seq![other, file], ignore, ext, levels) == expected
        }),
{
    let fo = seq![file, other];
    let of = seq![other, file];
    assert(fo.subrange(0, 1) =~= seq![file]);
    assert(of.subrange(0, 1) =~= seq![other]);
    assert(seq![file].subrange(0, 0) =~= Seq::<FsEntry>::empty());
    assert(seq![other].subrange(0, 0) =~= Seq::<FsEntry>::empty());
    let stem = source_stem(file.name@, ext)->0;
    assert(scan_entries(Seq::<FsEntry>::empty(), ignore, ext, levels) == Ok::<
        Seq<Decl>,
        ScanFailure,
    >(seq![]));
    assert(entry_decls(other, ignore, ext, levels) == Ok::<Seq<Decl>, ScanFailure>(seq![]));
    assert(scan_entries(seq![other], ignore, ext, levels) == Ok::<Seq<Decl>, ScanFailure>(
        seq![],
    )) by {
        assert(Seq::<Decl>::empty() + Seq::<Decl>::empty() =~= Seq::<Decl>::empty());
    }
    assert(scan_entries(seq![file], ignore, ext, levels) == entry_decls(
        file,
        ignore,
        ext,
        levels,
    )) by {
        if let Ok(d) = entry_decls(file, ignore, ext, levels) {
            assert(Seq::<Decl>::empty() + d =~= d);
        }
    }
    assert(scan_entries(fo, ignore, ext, levels) == entry_decls(file, ignore, ext, levels)) by {
        if let Ok(d) = entry_decls(file, ignore, ext, levels) {
            assert(d + Seq::<Decl>::empty() =~= d);
        }
    }
    assert(scan_entries(of, ignore, ext, levels) == entry_decls(file, ignore, ext, levels)) by {
        if let Ok(d) = entry_decls(file, ignore, ext, levels) {
            assert(Seq::<Decl>::empty() + d =~= d);
        }
    }
}

/// Pruning is transitive: an entry with no source file anywhere beneath it
/// contributes nothing, so a directory whose descendants are all pruned is
/// pruned too.
pub proof fn lemma_sourceless_entry_pruned(
    e: FsEntry,
    ignore: Seq<Seq<char>>,
    ext: Seq<char>,
    levels: nat,
)
    requires
        holds_no_sources(e, ignore, ext, levels),
    ensures
        entry_decls(e, ignore, ext, levels) == Ok::<Seq<Decl>, ScanFailure>(seq![]),
    decreases e,
{
    if !is_ignored(ignore, e.name@) {
        if let EntryKind::Dir(Listing::Entries(v)) = e.kind {
            assert(decreases_to!(e => v@));
            lemma_sourceless_entries_pruned(v@, ignore, ext, (levels - 1) as nat);
        }
    }
}

/// Entries none of which holds a source file anywhere beneath scan to no
/// declarations.
pub proof fn lemma_sourceless_entries_pruned(
    es: Seq<FsEntry>,
    ignore: Seq<Seq<char>>,
    ext: Seq<char>,
    levels: nat,
)
    requires
        all_hold_no_sources(es, ignore, ext, levels),
    ensures
        scan_entries(es, ignore, ext, levels) == Ok::<Seq<Decl>, ScanFailure>(seq![]),
    decreases es,
{
    if es.len() > 0 {
        lemma_sourceless_entries_pruned(es.subrange(0, es.len() - 1), ignore, ext, levels);
        lemma_sourceless_entry_pruned(es[es.len() - 1], ignore, ext, levels);
        assert(Seq::<Decl>::empty() + Seq::<Decl>::empty() =~= Seq::<Decl>::empty());
    }
}

/// The scan keeps listing order: a listing split into a front `a` and a back
/// `b` scans to the front's declarations followed by the back's, and when both
/// parts fail, the front's failure is the one reported.
pub proof fn lemma_scan_keeps_listing_order(
    a: Seq<FsEntry>,
    b: Seq<FsEntry>,
    ignore: Seq<Seq<char>>,
    ext: Seq<char>,
    levels: nat,
)
    ensures
        scan_entries(a + b, ignore, ext, levels) == match scan_entries(a, ignore, ext, levels) {
            Err(f) => Err(f),
            Ok(da) => match scan_entries(b, ignore, ext, levels) {
                Err(f) => Err(f),
                Ok(db) => Ok(da + db),
            },
        },
    decreases b.len(),
{
    if b.len() == 0 {
        assert(a + b =~= a);
        if let Ok(da) = scan_entries(a, ignore, ext, levels) {
            assert(da + Seq::<Decl>::empty() =~= da);
        }
    } else {
        let front = b.subrange(0, b.len() - 1);
        let ab = a + b;
        assert(ab.subrange(0, ab.len() - 1) =~= a + front);
        assert(ab[ab.len() - 1] == b[b.len() - 1]);
        lemma_scan_keeps_listing_order(a, front, ignore, ext, levels);
        if let Ok(da) = scan_entries(a, ignore, ext, levels) {
            if let Ok(df) = scan_entries(front, ignore, ext, levels) {
                if let Ok(d) = entry_decls(b[b.len() - 1], ignore, ext, levels) {
                    assert(da + df + d =~= da + (df + d));
                }
            }
        }
    }
}

/// Whether every namespace in `d`, at any depth, holds at least one
/// declaration.
pub open spec fn pruned_decl(d: Decl) -> bool
    decreases d,
{
    match d {
        Decl::Leaf(_) => true,
        Decl::Namespace(_, cs) => cs.len() > 0 && pruned_decls(cs),
    }
}

/// Whether every namespace in `ds`, at any depth, holds at least one
/// declaration.
pub open spec fn pruned_decls(ds: Seq<Decl>) -> bool
    decreases ds,
{
    forall|i: int| 0 <= i < ds.len() ==> pruned_decl(#[trigger] ds[i])
}

/// A successful scan never yields an empty namespace, at any depth: every
/// directory it declares holds at least one declaration.
pub proof fn lemma_scan_never_empty_namespace(
    es: Seq<FsEntry>,
    ignore: Seq<Seq<char>>,
    ext: Seq<char>,
    levels: nat,
)
    requires
        scan_entries(es, ignore, ext, levels) is Ok,
    ensures
        pruned_decls(scan_entries(es, ignore, ext, levels)->Ok_0),
    decreases es,
{
    if es.len() > 0 {
        let front = es.subrange(0, es.len() - 1);
        let last = es[es.len() - 1];
        lemma_scan_never_empty_namespace(front, ignore, ext, levels);
        lemma_entry_never_empty_namespace(last, ignore, ext, levels);
        let df = scan_entries(front, ignore, ext, levels)->Ok_0;
        let d = entry_decls(last, ignore, ext, levels)->Ok_0;
        let all = df + d;
        assert forall|i: int| 0 <= i < all.len() implies pruned_decl(#[trigger] all[i]) by {
            if i < df.len() {
                assert(all[i] == df[i]);
            } else {
                assert(all[i] == d[i - df.len()]);
            }
        }
    }
}

proof fn lemma_entry_never_empty_namespace(
    e: FsEntry,
    ignore: Seq<Seq<char>>,
    ext: Seq<char>,
    levels: nat,
)
    requires
        entry_decls(e, ignore, ext, levels) is Ok,
    ensures
        pruned_decls(entry_decls(e, ignore, ext, levels)->Ok_0),
    decreases e,
{
    if !is_ignored(ignore, e.name@) && !(e.kind is Dir && levels == 0) {
        if let EntryKind::Dir(Listing::Entries(v)) = e.kind {
            assert(decreases_to!(e => v@));
            lemma_scan_never_empty_namespace(v@, ignore, ext, (levels - 1) as nat);
            let ds = entry_decls(e, ignore, ext, levels)->Ok_0;
            if ds.len() > 0 {
                assert(pruned_decl(ds[0]));
            }
        }
    }
}

/// Scanning an unchanged tree twice gives structurally identical results: the
/// same declarations, or the same failure.
pub proof fn lemma_scan_repeatable(
    root: FsEntry,
    ignore: Seq<Seq<char>>,
    ext: Seq<char>,
    levels: nat,
    first: Result<Vec<DeclarationEntry>, ScanError>,
    second: Result<Vec<DeclarationEntry>, ScanError>,
)
    requires
        scan_view(first) == scan_root(root, ignore, ext, levels),
        scan_view(second) == scan_root(root, ignore, ext, levels),
    ensures
        scan_view(first) == scan_view(second),
{
}

fn name_ignored(name: &String, ignore: &Vec<String>) -> (r: bool)
    ensures
        r == is_ignored(names_view(ignore@), name@),
{
    let mut i: usize = 0;
    while i < ignore.len()
        invariant
            i <= ignore.len(),
            forall|j: int| 0 <= j < i ==> ignore@[j]@ != name@,
        decreases ignore.len() - i,
    {
        if ignore[i] == *name {
            proof {
                assert(names_view(ignore@)[i as int] == name@);
            }
            return true;
        }
        i = i + 1;
    }
    proof {
        if names_view(ignore@).contains(name@) {
            let j = choose|j: int|
                0 <= j < names_view(ignore@).len() && names_view(ignore@)[j] == name@;
            assert(ignore@[j]@ == name@);
        }
    }
    false
}

/// Scans one entry; `Ok(None)` when it contributes nothing.
fn scan_entry(e: &FsEntry, ignore: &Vec<String>, ext: &str, levels: usize) -> (r: Result<
    Option<DeclarationEntry>,
    ScanError,
>)
    ensures
        entry_decls(*e, names_view(ignore@), ext@, levels as nat) == match r {
            Ok(Some(d)) => Ok(seq![decl_view(d)]),
            Ok(None) => Ok(seq![]),
            Err(f) => Err(f@),
        },
    decreases e,
{
    if name_ignored(&e.name, ignore) {
        return Ok(None);
    }
    if levels == 0 {
        if let EntryKind::Dir(_) = &e.kind {
            return Err(ScanError::TooDeep { path: e.path.clone() });
        }
    }
    match &e.kind {
        EntryKind::Dir(Listing::Unreadable(cause)) => Err(
            ScanError::Unreadable { path: e.path.clone(), cause: cause.clone() },
        ),
        EntryKind::Dir(Listing::Entries(v)) => {
            match scan_listing(v, ignore, ext, levels - 1) {
                Err(f) => Err(f),
                Ok(children) => {
                    proof {
                        lemma_decls_view_len(children@);
                    }
                    if children.len() == 0 {
                        Ok(None)
                    } else {
                        match identifier_for(e.name.as_str()) {
                            Some(id) => Ok(
                                Some(
                                    DeclarationEntry::NestedNamespace {
                                        identifier: id,
                                        children,
                                    },
                                ),
                            ),
                            None => Err(
                                ScanError::InvalidIdentifier {
                                    path: e.path.clone(),
                                    original: e.name.clone(),
                                },
                            ),
                        }
                    }
                },
            }
        },
        EntryKind::File => match stem_with_extension(e.name.as_str(), ext) {
            None => Ok(None),
            Some(stem) => match identifier_for(stem.as_str()) {
                Some(id) => Ok(Some(DeclarationEntry::LeafModule { identifier: id })),
                None => Err(
                    ScanError::InvalidIdentifier { path: e.path.clone(), original: e.name.clone() },
                ),
            },
        },
        EntryKind::Other => Ok(None),
    }
}

/// Scans the entries of one listed directory, in order.
fn scan_listing(
    entries: &Vec<FsEntry>,
    ignore: &Vec<String>,
    ext: &str,
    levels: usize,
) -> (r: Result<
    Vec<DeclarationEntry>,
    ScanError,
>)
    ensures
        scan_view(r) == scan_entries(entries@, names_view(ignore@), ext@, levels as nat),
    decreases entries@,
{
    let mut out: Vec<DeclarationEntry> = Vec::new();
    let mut i: usize = 0;
    proof {
        assert(entries@.subrange(0, 0) =~= Seq::<FsEntry>::empty());
        assert(decls_view(out@) =~= Seq::<Decl>::empty());
    }
    while i < entries.len()
        invariant
            i <= entries.len(),
            scan_entries(
                entries@.subrange(0, i as int),
                names_view(ignore@),
                ext@,
                levels as nat,
            ) == Ok::<
                Seq<Decl>,
                ScanFailure,
            >(decls_view(out@)),
        decreases entries.len() - i,
    {
        let e = &entries[i];
        let ghost upto = entries@.subrange(0, i + 1);
        proof {
            assert(upto.subrange(0, i as int) =~= entries@.subrange(0, i as int));
            assert(decreases_to!(entries@ => entries@[i as int]));
        }
        match scan_entry(e, ignore, ext, levels) {
            Err(f) => {
                proof {
                    lemma_failure_persists(
                        entries@,
                        i + 1,
                        names_view(ignore@),
                        ext@,
                        levels as nat,
                    );
                }
                return Err(f);
            },
            Ok(Some(d)) => {
                proof {
                    lemma_decls_view_push(out@, d);
                    assert(decls_view(out@) + seq![decl_view(d)] =~= decls_view(out@).push(
                        decl_view(d),
                    ));
                }
                out.push(d);
                proof {
                    assert(scan_entries(upto, names_view(ignore@), ext@, levels as nat) == Ok::<
                        Seq<Decl>,
                        ScanFailure,
                    >(decls_view(out@)));
                }
            },
            Ok(None) => {
                proof {
                    assert(decls_view(out@) + seq![] =~= decls_view(out@));
                    assert(scan_entries(upto, names_view(ignore@), ext@, levels as nat) == Ok::<
                        Seq<Decl>,
                        ScanFailure,
                    >(decls_view(out@)));
                }
            },
        }
        i = i + 1;
    }
    proof {
        assert(entries@.subrange(0, entries@.len() as int) =~= entries@);
    }
    Ok(out)
}

/// Scans the directory `root`: every entry whose name is not in `ignore`, at
/// every depth, is considered; files with extension `ext` become leaves,
/// directories that contribute something become namespaces, in listing order.
/// A directory more than `max_depth` levels below `root` fails the scan with
/// `TooDeep`.
pub fn scan(root: &FsEntry, ignore: &Vec<String>, ext: &str, max_depth: usize) -> (r: Result<
    Vec<DeclarationEntry>,
    ScanError,
>)
    ensures
        scan_view(r) == scan_root(*root, names_view(ignore@), ext@, max_depth as nat),
{
    match &root.kind {
        EntryKind::Dir(Listing::Entries(v)) => scan_listing(v, ignore, ext, max_depth),
        EntryKind::Dir(Listing::Unreadable(cause)) => Err(
            ScanError::Unreadable { path: root.path.clone(), cause: cause.clone() },
        ),
        _ => Err(ScanError::NotADirectory { path: root.path.clone() }),
    }
}

} // verus!
