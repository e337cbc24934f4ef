//! The two ways of declaring a directory: all of a source root's modules, or
//! one folder wrapped in a module named after it.

use vstd::prelude::*;
use crate::ident::{identifier_for, ident_of, sanitized};
use crate::names::{final_segment, path_final_segment};
use crate::scan::{names_view, scan, scan_root, scan_view};
use crate::tree::{decl_view, Decl, DeclarationEntry, FsEntry, ScanError, ScanFailure};

verus! {

/// How many levels of directories below the root a declaration goes.
pub const MAX_DEPTH: usize = 64;

/// The names skipped at every depth when a whole source root is declared: the
/// crate roots and the aggregator file.
pub open spec fn source_root_reserved() -> Seq<Seq<char>> {
    seq!["lib.rs"@, "main.rs"@, "mod.rs"@]
}

/// The name skipped at every depth when one folder is declared.
pub open spec fn folder_reserved() -> Seq<Seq<char>> {
    seq!["mod.rs"@]
}

/// The extension of the source files that become modules.
pub open spec fn source_ext() -> Seq<char> {
    "rs"@
}

/// The declaration of the folder reached by `path`, whose listing is `root`:
/// one namespace named after the path's final segment, holding the folder's
/// declarations.
pub open spec fn folder_decl(path: Seq<char>, root: FsEntry) -> Result<Decl, ScanFailure> {
    match final_segment(path) {
        None => Err(ScanFailure::InvalidIdentifier { path: root.path@, original: path }),
        Some(seg) => match scan_root(root, folder_reserved(), source_ext(), MAX_DEPTH as nat) {
            Err(f) => Err(f),
            Ok(children) => match ident_of(seg) {
                Some(id) => Ok(Decl::Namespace(id, children)),
                None => Err(ScanFailure::InvalidIdentifier { path: root.path@, original: seg }),
            },
        },
    }
}

/// Wrapping a folder yields exactly one outer namespace, whose identifier is
/// the path's final segment with every literal `.` replaced by `_`.
pub proof fn lemma_folder_named_after_segment(path: Seq<char>, root: FsEntry)
    requires
        folder_decl(path, root) is Ok,
    ensures
        ({
            let seg = final_segment(path)->0;
            let d = folder_decl(path, root)->Ok_0;
            &&& final_segment(path) is Some
            &&& d matches Decl::Namespace(id, _) && id == sanitized(seg) && id.len() == seg.len()
                && forall|i: int| 0 <= i < seg.len() && seg[i] == '.' ==> #[trigger] id[i] == '_'
        }),
{
}

/// Declares every module under the source root `root`, skipping `lib.rs`,
/// `main.rs` and `mod.rs` at every depth, down to [`MAX_DEPTH`] levels.
pub fn include_all_modules(root: &FsEntry) -> (r: Result<Vec<DeclarationEntry>, ScanError>)
    ensures
        scan_view(r) == scan_root(*root, source_root_reserved(), source_ext(), MAX_DEPTH as nat),
{
    let mut ignore: Vec<String> = Vec::new();
    ignore.push("lib.rs".to_owned());
    ignore.push("main.rs".to_owned());
    ignore.push("mod.rs".to_owned());
    proof {
        assert(names_view(ignore@) =~= source_root_reserved());
    }
    scan(root, &ignore, "rs", MAX_DEPTH)
}

/// Declares the folder reached by `path` (listed as `root`) as one module
/// named after the path's final segment, with every `.` and other character
/// that cannot stand in an identifier replaced by `_`; `mod.rs` is skipped at
/// every depth, down to [`MAX_DEPTH`] levels.
pub fn include_folder(path: &str, root: &FsEntry) -> (r: Result<DeclarationEntry, ScanError>)
    ensures
        match r {
            Ok(d) => folder_decl(path@, *root) == Ok::<Decl, ScanFailure>(decl_view(d)),
            Err(f) => folder_decl(path@, *root) == Err::<Decl, ScanFailure>(f@),
        },
        r matches Ok(d) ==> {
            &&& d is NestedNamespace
            &&& final_segment(path@) is Some
            &&& d->NestedNamespace_identifier@ == sanitized(final_segment(path@)->0)
        },
{
    let seg = match path_final_segment(path) {
        Some(s) => s,
        None => {
            return Err(
                ScanError::InvalidIdentifier { path: root.path.clone(), original: path.to_owned() },
            );
        },
    };
    let mut ignore: Vec<String> = Vec::new();
    ignore.push("mod.rs".to_owned());
    proof {
        assert(names_view(ignore@) =~= folder_reserved());
    }
    let children = match scan(root, &ignore, "rs", MAX_DEPTH) {
        Ok(c) => c,
        Err(f) => {
            return Err(f);
        },
    };
    match identifier_for(seg.as_str()) {
        Some(id) => Ok(DeclarationEntry::NestedNamespace { identifier: id, children }),
        None => Err(ScanError::InvalidIdentifier { path: root.path.clone(), original: seg }),
    }
}

} // verus!
