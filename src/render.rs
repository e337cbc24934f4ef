//! Rendering a declaration tree as Rust module declarations, one token per
//! word, spaced as a token stream prints (`pub mod a { pub mod b ; }`).

use vstd::prelude::*;
use vstd::string::*;
use crate::tree::{decl_view, decls_view, lemma_decls_view_len, lemma_decls_view_push, Decl,
    DeclarationEntry,
};

verus! {

/// The text of one declaration.
pub open spec fn render_decl(d: Decl) -> Seq<char>
    decreases d,
{
    match d {
        Decl::Leaf(id) => "pub mod "@ + id + " ;"@,
        Decl::Namespace(id, children) => if children.len() == 0 {
            "pub mod "@ + id + " { }"@
        } else {
            "pub mod "@ + id + " { "@ + render_decls(children) + " }"@
        },
    }
}

/// The text of a sequence of declarations, separated by single spaces.
pub open spec fn render_decls(ds: Seq<Decl>) -> Seq<char>
    decreases ds,
{
    if ds.len() == 0 {
        seq![]
    } else if ds.len() == 1 {
        render_decl(ds[0])
    } else {
        render_decls(ds.subrange(0, ds.len() - 1)) + " "@ + render_decl(ds[ds.len() - 1])
    }
}

fn render_entry(out: &mut String, d: &DeclarationEntry)
    ensures
        final(out)@ == old(out)@ + render_decl(decl_view(*d)),
    decreases d,
{
    match d {
        DeclarationEntry::LeafModule { identifier } => {
            out.append("pub mod ");
            out.append(identifier.as_str());
            out.append(" ;");
        },
        DeclarationEntry::NestedNamespace { identifier, children } => {
            out.append("pub mod ");
            out.append(identifier.as_str());
            if children.len() == 0 {
                out.append(" { }");
            } else {
                out.append(" { ");
                render_entries(out, children);
                out.append(" }");
            }
        },
    }
}

fn render_entries(out: &mut String, ds: &Vec<DeclarationEntry>)
    ensures
        final(out)@ == old(out)@ + render_decls(decls_view(ds@)),
    decreases ds@,
{
    let ghost start = out@;
    let mut i: usize = 0;
    proof {
        assert(ds@.subrange(0, 0) =~= Seq::<DeclarationEntry>::empty());
        assert(start + render_decls(decls_view(ds@.subrange(0, 0))) =~= start);
    }
    while i < ds.len()
        invariant
            i <= ds.len(),
            out@ == start + render_decls(decls_view(ds@.subrange(0, i as int))),
        decreases ds.len() - i,
    {
        let ghost front = ds@.subrange(0, i as int);
        let ghost upto = ds@.subrange(0, i + 1);
        proof {
            assert(upto =~= front.push(ds@[i as int]));
            lemma_decls_view_push(front, ds@[i as int]);
            lemma_decls_view_len(front);
            assert(decreases_to!(ds@ => ds@[i as int]));
            let vs = decls_view(upto);
            assert(vs.subrange(0, vs.len() - 1) =~= decls_view(front));
        }
        if i > 0 {
            out.append(" ");
        }
        render_entry(out, &ds[i]);
        proof {
            if i == 0 {
                assert(render_decls(decls_view(front)) =~= Seq::<char>::empty());
            }
        }
        i = i + 1;
    }
    proof {
        assert(ds@.subrange(0, ds@.len() as int) =~= ds@);
    }
}

/// Renders `ds` as module declarations: `pub mod x ;` for a leaf and
/// `pub mod x { ... }` for a namespace, separated by single spaces.
pub fn render(ds: &Vec<DeclarationEntry>) -> (r: String)
    ensures
        r@ == render_decls(decls_view(ds@)),
{
    let mut out = String::new();
    render_entries(&mut out, ds);
    out
}

} // verus!
