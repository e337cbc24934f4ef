//! The data the scanner reads and produces: a listed directory tree, the
//! declaration tree derived from it, and the errors that abort a scan.

use vstd::prelude::*;

verus! {

/// What listing a directory gave.
#[derive(Debug)]
pub enum Listing {
    /// The directory's immediate entries, in the order the filesystem listed them.
    Entries(Vec<FsEntry>),
    /// The listing failed; the payload describes the cause.
    Unreadable(String),
}

/// What kind of thing a directory entry is.
#[derive(Debug)]
pub enum EntryKind {
    /// A regular file.
    File,
    /// A directory, with what listing it gave.
    Dir(Listing),
    /// Anything else (a dangling link, a socket, a path that does not exist).
    Other,
}

/// One entry of a listed directory tree.
#[derive(Debug)]
pub struct FsEntry {
    /// The entry's own name: the last component of its path.
    pub name: String,
    /// The entry's full path, as reported in errors.
    pub path: String,
    pub kind: EntryKind,
}

/// One declaration of the generated tree.
#[derive(Debug, PartialEq, Eq)]
pub enum DeclarationEntry {
    /// A module backed by one source file.
    LeafModule { identifier: String },
    /// A module backed by a directory, holding the declarations derived from it.
    NestedNamespace { identifier: String, children: Vec<DeclarationEntry> },
}

/// The mathematical value of a [`DeclarationEntry`].
pub enum Decl {
    Leaf(Seq<char>),
    Namespace(Seq<char>, Seq<Decl>),
}

/// An error that aborts a scan.
#[derive(Debug, PartialEq, Eq)]
pub enum ScanError {
    /// The given root is not a directory.
    NotADirectory { path: String },
    /// Listing the directory at `path` failed.
    Unreadable { path: String, cause: String },
    /// The entry at `path`, named `original`, yields no usable identifier.
    InvalidIdentifier { path: String, original: String },
    /// The directory at `path` lies deeper below the root than the scan may go.
    TooDeep { path: String },
}

/// The mathematical value of a [`ScanError`].
pub enum ScanFailure {
    NotADirectory { path: Seq<char> },
    Unreadable { path: Seq<char>, cause: Seq<char> },
    InvalidIdentifier { path: Seq<char>, original: Seq<char> },
    TooDeep { path: Seq<char> },
}

impl View for ScanError {
    type V = ScanFailure;

    open spec fn view(&self) -> ScanFailure {
        match self {
            ScanError::NotADirectory { path } => ScanFailure::NotADirectory { path: path@ },
            ScanError::Unreadable { path, cause } => ScanFailure::Unreadable {
                path: path@,
                cause: cause@,
            },
            ScanError::InvalidIdentifier { path, original } => ScanFailure::InvalidIdentifier {
                path: path@,
                original: original@,
            },
            ScanError::TooDeep { path } => ScanFailure::TooDeep { path: path@ },
        }
    }
}

/// The value of one declaration.
pub open spec fn decl_view(d: DeclarationEntry) -> Decl
    decreases d,
{
    match d {
        DeclarationEntry::LeafModule { identifier } => Decl::Leaf(identifier@),
        DeclarationEntry::NestedNamespace { identifier, children } => Decl::Namespace(
            identifier@,
            decls_view(children@),
        ),
    }
}

/// The values of a sequence of declarations, in order.
pub open spec fn decls_view(ds: Seq<DeclarationEntry>) -> Seq<Decl>
    decreases ds,
{
    if ds.len() == 0 {
        seq![]
    } else {
        decls_view(ds.subrange(0, ds.len() - 1)).push(decl_view(ds[ds.len() - 1]))
    }
}

/// Viewing declarations keeps their number.
pub proof fn lemma_decls_view_len(ds: Seq<DeclarationEntry>)
    ensures
        decls_view(ds).len() == ds.len(),
    decreases ds.len(),
{
    if ds.len() > 0 {
        lemma_decls_view_len(ds.subrange(0, ds.len() - 1));
    }
}

/// Viewing declarations commutes with appending one.
pub proof fn lemma_decls_view_push(ds: Seq<DeclarationEntry>, d: DeclarationEntry)
    ensures
        decls_view(ds.push(d)) == decls_view(ds).push(decl_view(d)),
{
    assert(ds.push(d).subrange(0, ds.len() as int) =~= ds);
}

} // verus!
