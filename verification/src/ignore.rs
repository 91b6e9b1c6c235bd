//! Glob-based exclusion: a path relative to the scan root is pruned when any
//! of the compiled ignore patterns matches it or one of its ancestors.

use vstd::prelude::*;
use vstd::std_specs::iter::IteratorSpec;
use crate::text::push_char;

verus! {

broadcast use vstd::string::axiom_spec_iter, vstd::string::next_postcondition;

/// Whether a pattern string is a valid glob (compiles).
pub uninterp spec fn glob_ok(pattern: Seq<char>) -> bool;

/// Whether a valid glob pattern matches a path string.
pub uninterp spec fn glob_matches(pattern: Seq<char>, path: Seq<char>) -> bool;

/// Relies on glob::Pattern::new and glob::Pattern::matches_path: whether a
/// pattern string compiles, and whether the compiled pattern matches a path,
/// are functions of the two strings alone. A pattern that does not compile is
/// reported as None. matches_path converts the path to a string and matches
/// that string, and here the path was built from the string itself.
#[verifier::external_body]
fn glob_match(pattern: &str, path: &str) -> (r: Option<bool>)
    ensures
        r is Some <==> glob_ok(pattern@),
        r matches Some(m) ==> m == glob_matches(pattern@, path@),
{
    match glob::Pattern::new(pattern) {
        Ok(p) => Some(p.matches_path(std::path::Path::new(path))),
        Err(_) => None,
    }
}

/// A path is ignored when some pattern in the set is a valid glob and matches
/// it; invalid patterns are silently dropped from the active set.
pub open spec fn ignored(pats: Seq<String>, path: Seq<char>) -> bool {
    exists|j: int| 0 <= j < pats.len() && #[trigger] pattern_hits(pats[j], path)
}

pub open spec fn pattern_hits(pat: String, path: Seq<char>) -> bool {
    glob_ok(pat@) && glob_matches(pat@, path)
}

/// Does any pattern in the set match this path?
pub fn matches_any(pats: &Vec<String>, path: &str) -> (r: bool)
    ensures
        r == ignored(pats@, path@),
{
    let mut j: usize = 0;
    while j < pats.len()
        invariant
            j <= pats@.len(),
            forall|t: int| 0 <= t < j ==> !pattern_hits(pats@[t], path@),
        decreases pats@.len() - j,
    {
        match glob_match(pats[j].as_str(), path) {
            Some(true) => {
                proof {
                    assert(pattern_hits(pats@[j as int], path@));
                }
                return true;
            },
            _ => {
                proof {
                    assert(!pattern_hits(pats@[j as int], path@));
                }
            },
        }
        j = j + 1;
    }
    false
}

/// `k` is a component boundary of `rel`: its end, or the index of a slash.
pub open spec fn boundary(rel: Seq<char>, k: int) -> bool {
    k == rel.len() || rel[k] == '/'
}

/// An entry survives pruning when it is not the root itself and no pattern
/// matches the root's own (empty) relative path, any of the entry's ancestor
/// paths, or the entry's path: a match on an ancestor directory prunes the
/// whole subtree.
pub open spec fn kept(pats: Seq<String>, rel: Seq<char>) -> bool {
    &&& rel.len() > 0
    &&& !ignored(pats, Seq::empty())
    &&& forall|k: int|
        0 < k <= rel.len() && boundary(rel, k) ==> !ignored(pats, #[trigger] rel.subrange(0, k))
}

/// Decides `kept` by testing every component boundary of `rel`.
pub fn is_kept(pats: &Vec<String>, rel: &str) -> (r: bool)
    ensures
        r == kept(pats@, rel@),
{
    proof {
        reveal_strlit("");
    }
    if rel.is_empty() {
        return false;
    }
    if matches_any(pats, "") {
        assert(""@ =~= Seq::<char>::empty());
        return false;
    }
    assert(""@ =~= Seq::<char>::empty());
    let mut it = rel.chars();
    let mut pre = String::new();
    let ghost mut i: int = 0;
    loop
        invariant
            0 <= i <= rel@.len(),
            rel@.len() > 0,
            it.remaining() =~= rel@.subrange(i, rel@.len() as int),
            pre@ =~= rel@.subrange(0, i),
            !ignored(pats@, Seq::<char>::empty()),
            forall|k: int|
                0 < k < i && rel@[k] == '/' ==> !ignored(pats@, #[trigger] rel@.subrange(0, k)),
        decreases rel@.len() - i,
    {
        match it.next() {
            Some(c) => {
                proof {
                    assert(c == rel@[i]);
                }
                if c == '/' {
                    if matches_any(pats, pre.as_str()) {
                        proof {
                            if i == 0 {
                                assert(pre@ =~= Seq::<char>::empty());
                                assert(false);
                            }
                            assert(boundary(rel@, i));
                        }
                        return false;
                    }
                }
                push_char(&mut pre, c);
                proof {
                    i = i + 1;
                    assert(pre@ =~= rel@.subrange(0, i));
                }
            },
            None => {
                proof {
                    assert(i == rel@.len());
                    assert(pre@ =~= rel@);
                }
                let hit = matches_any(pats, pre.as_str());
                if hit {
                    proof {
                        assert(boundary(rel@, rel@.len() as int));
                    }
                    return false;
                }
                proof {
                    assert forall|k: int|
                        0 < k <= rel@.len() && boundary(rel@, k) implies !ignored(
                        pats@,
                        rel@.subrange(0, k),
                    ) by {
                        if k == rel@.len() {
                            assert(rel@.subrange(0, k) =~= rel@);
                        }
                    }
                }
                return true;
            },
        }
    }
}

} // verus!
