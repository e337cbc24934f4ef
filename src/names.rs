//! Splitting filesystem names: a file's stem and extension, a path's final
//! component.

use vstd::prelude::*;
use vstd::string::*;

verus! {

/// Index of the last occurrence of `c` in `s`, or `-1` when there is none.
pub open spec fn last_index_of(s: Seq<char>, c: char) -> int
    decreases s.len(),
{
    if s.len() == 0 {
        -1
    } else if s.last() == c {
        s.len() - 1
    } else {
        last_index_of(s.drop_last(), c)
    }
}

/// The stem of a file named `name` when its extension is exactly `ext`.
/// The extension is what follows the last `.`; a name whose only `.` is its
/// first character (such as `.hidden`) has no extension.
pub open spec fn source_stem(name: Seq<char>, ext: Seq<char>) -> Option<Seq<char>> {
    let k = last_index_of(name, '.');
    if k > 0 && name.subrange(k + 1, name.len() as int) == ext {
        Some(name.subrange(0, k))
    } else {
        None
    }
}

/// The last component of a `/`-separated path that is neither empty nor `.`.
pub open spec fn last_component(p: Seq<char>) -> Option<Seq<char>>
    decreases p.len(),
    via last_component_decreases
{
    let k = last_index_of(p, '/');
    let seg = p.subrange(k + 1, p.len() as int);
    if seg.len() > 0 && seg != seq!['.'] {
        Some(seg)
    } else if k < 0 {
        None
    } else {
        last_component(p.subrange(0, k))
    }
}

/// The final segment of a path, which names the directory it leads to; a path
/// that ends in `..` or has no component names none.
pub open spec fn final_segment(p: Seq<char>) -> Option<Seq<char>> {
    match last_component(p) {
        Some(seg) => if seg == seq!['.', '.'] {
            None
        } else {
            Some(seg)
        },
        None => None,
    }
}

#[via_fn]
proof fn last_component_decreases(p: Seq<char>) {
    lemma_last_index_bounds(p, '/');
}

proof fn lemma_last_index_bounds(s: Seq<char>, c: char)
    ensures
        -1 <= last_index_of(s, c) < s.len(),
        last_index_of(s, c) >= 0 ==> s[last_index_of(s, c)] == c,
        forall|j: int| last_index_of(s, c) < j < s.len() ==> s[j] != c,
    decreases s.len(),
{
    if s.len() > 0 && s.last() != c {
        lemma_last_index_bounds(s.drop_last(), c);
        assert forall|j: int| last_index_of(s, c) < j < s.len() implies s[j] != c by {
            if j < s.len() - 1 {
                assert(s.drop_last()[j] == s[j]);
            }
        }
    }
}

/// Position of the last `c` among the first `end` characters of `s`.
fn last_index_before(s: &str, end: usize, c: char) -> (r: Option<usize>)
    requires
        end <= s@.len(),
    ensures
        match r {
            Some(k) => k as int == last_index_of(s@.subrange(0, end as int), c),
            None => last_index_of(s@.subrange(0, end as int), c) == -1,
        },
{
    let mut j: usize = end;
    while j > 0
        invariant
            j <= end <= s@.len(),
            last_index_of(s@.subrange(0, end as int), c) == last_index_of(
                s@.subrange(0, j as int),
                c,
            ),
        decreases j,
    {
        let d = s.get_char(j - 1);
        proof {
            assert(s@.subrange(0, j as int).drop_last() =~= s@.subrange(0, j - 1));
        }
        if d == c {
            return Some(j - 1);
        }
        j = j - 1;
    }
    None
}

fn text_eq(a: &str, b: &str) -> (r: bool)
    ensures
        r == (a@ == b@),
{
    let x = a.to_owned();
    let y = b.to_owned();
    x == y
}

/// The stem of `name` when its extension is exactly `ext`, else `None`.
pub fn stem_with_extension(name: &str, ext: &str) -> (r: Option<String>)
    ensures
        match r {
            Some(s) => source_stem(name@, ext@) == Some(s@),
            None => source_stem(name@, ext@) is None,
        },
{
    let n = name.unicode_len();
    proof {
        assert(name@.subrange(0, n as int) =~= name@);
        lemma_last_index_bounds(name@, '.');
    }
    match last_index_before(name, n, '.') {
        Some(k) => {
            if k > 0 && text_eq(name.substring_char(k + 1, n), ext) {
                Some(name.substring_char(0, k).to_owned())
            } else {
                None
            }
        },
        None => None,
    }
}

/// The final segment of the path `p`, as [`final_segment`] describes it.
pub fn path_final_segment(p: &str) -> (r: Option<String>)
    ensures
        match r {
            Some(s) => final_segment(p@) == Some(s@),
            None => final_segment(p@) is None,
        },
{
    let n = p.unicode_len();
    let mut end: usize = n;
    proof {
        assert(p@.subrange(0, n as int) =~= p@);
    }
    loop
        invariant
            end <= n == p@.len(),
            last_component(p@) == last_component(p@.subrange(0, end as int)),
        decreases end,
    {
        let pre = Ghost(p@.subrange(0, end as int));
        let k = last_index_before(p, end, '/');
        proof {
            lemma_last_index_bounds(pre@, '/');
        }
        let start: usize = match k {
            Some(k) => k + 1,
            None => 0,
        };
        let seg = p.substring_char(start, end);
        proof {
            assert(seg@ =~= pre@.subrange(last_index_of(pre@, '/') + 1, pre@.len() as int));
        }
        let len = end - start;
        let is_dot = len == 1 && seg.get_char(0) == '.';
        proof {
            if len == 1 {
                assert(is_dot <==> seg@ =~= seq!['.']);
            }
        }
        if len > 0 && !is_dot {
            let is_up = len == 2 && seg.get_char(0) == '.' && seg.get_char(1) == '.';
            proof {
                if len == 2 {
                    assert(is_up <==> seg@ =~= seq!['.', '.']);
                }
            }
            if is_up {
                return None;
            }
            return Some(seg.to_owned());
        }
        match k {
            Some(k) => {
                proof {
                    assert(pre@.subrange(0, k as int) =~= p@.subrange(0, k as int));
                }
                end = k;
            },
            None => {
                return None;
            },
        }
    }
}

} // verus!
