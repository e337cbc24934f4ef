//! Identifier derivation from filesystem names.

use vstd::prelude::*;
use vstd::string::*;

verus! {

/// Characters kept as they are when a name becomes an identifier:
/// ASCII letters, ASCII digits and the underscore.
pub open spec fn is_ident_char(c: char) -> bool {
    ('a' <= c && c <= 'z') || ('A' <= c && c <= 'Z') || ('0' <= c && c <= '9') || c == '_'
}

/// `name` with every character outside the identifier alphabet replaced by `_`.
pub open spec fn sanitized(name: Seq<char>) -> Seq<char> {
    Seq::new(name.len(), |i: int| if is_ident_char(name[i]) { name[i] } else { '_' })
}

fn ident_char(c: char) -> (r: bool)
    ensures
        r == is_ident_char(c),
{
    ('a' <= c && c <= 'z') || ('A' <= c && c <= 'Z') || ('0' <= c && c <= '9') || c == '_'
}

/// Replaces every character of `name` that cannot stand in an identifier
/// (anything but an ASCII letter, digit or `_`, so also every `.`) by `_`.
pub fn sanitize(name: &str) -> (r: String)
    ensures
        r@ == sanitized(name@),
{
    let n = name.unicode_len();
    let mut out = String::new();
    let mut i: usize = 0;
    while i < n
        invariant
            n == name@.len(),
            i <= n,
            out@ == sanitized(name@.subrange(0, i as int)),
        decreases n - i,
    {
        let c = name.get_char(i);
        if ident_char(c) {
            out.append(name.substring_char(i, i + 1));
        } else {
            out.append("_");
        }
        proof {
            reveal_strlit("_");
            assert(sanitized(name@.subrange(0, i + 1)) =~= sanitized(name@.subrange(0, i as int))
                + seq![sanitized(name@)[i as int]]);
        }
        i = i + 1;
    }
    proof {
        assert(name@.subrange(0, n as int) =~= name@);
    }
    out
}

/// The words that syn refuses as an identifier: `_` and the Rust keywords.
pub open spec fn reserved_words() -> Seq<Seq<char>> {
    seq![
        "_"@, "abstract"@, "as"@, "async"@, "await"@, "become"@, "box"@, "break"@, "const"@,
        "continue"@, "crate"@, "do"@, "dyn"@, "else"@, "enum"@, "extern"@, "false"@, "final"@,
        "fn"@, "for"@, "if"@, "impl"@, "in"@, "let"@, "loop"@, "macro"@, "match"@, "mod"@,
        "move"@, "mut"@, "override"@, "priv"@, "pub"@, "ref"@, "return"@, "Self"@, "self"@,
        "static"@, "struct"@, "super"@, "trait"@, "true"@, "try"@, "type"@, "typeof"@,
        "unsafe"@, "unsized"@, "use"@, "virtual"@, "where"@, "while"@, "yield"@,
    ]
}

/// Whether a non-empty text of identifier characters is a usable identifier:
/// it does not start with a digit and is not a reserved word.
pub open spec fn is_usable_ident(s: Seq<char>) -> bool {
    &&& s.len() > 0
    &&& !('0' <= s[0] && s[0] <= '9')
    &&& !reserved_words().contains(s)
}

/// Relies on `syn::parse_str::<syn::Ident>`. On a non-empty text of ASCII
/// letters, digits and `_`, the lexer yields one identifier token unless the
/// text starts with a digit (then it is a number), and syn's `Ident` parser
/// accepts that token unless it is `_` or one of its listed keywords.
#[verifier::external_body]
fn ident_parses(s: &str) -> (r: bool)
    requires
        s@.len() > 0,
        forall|i: int| 0 <= i < s@.len() ==> is_ident_char(#[trigger] s@[i]),
    ensures
        r == is_usable_ident(s@),
{
    syn::parse_str::<syn::Ident>(s).is_ok()
}

/// The identifier derived from a raw filesystem name: the sanitized name, when
/// it is a usable identifier.
pub open spec fn ident_of(raw: Seq<char>) -> Option<Seq<char>> {
    let s = sanitized(raw);
    if is_usable_ident(s) {
        Some(s)
    } else {
        None
    }
}

/// Derives the identifier for the raw name `raw`, or `None` when the sanitized
/// name is empty or is not a usable identifier (a keyword, `_`, or a name that
/// starts with a digit).
pub fn identifier_for(raw: &str) -> (r: Option<String>)
    ensures
        match r {
            Some(s) => ident_of(raw@) == Some(s@),
            None => ident_of(raw@) is None,
        },
{
    let s = sanitize(raw);
    proof {
        assert forall|i: int| 0 <= i < s@.len() implies is_ident_char(#[trigger] s@[i]) by {}
    }
    if s.unicode_len() > 0 && ident_parses(s.as_str()) {
        Some(s)
    } else {
        None
    }
}

} // verus!
