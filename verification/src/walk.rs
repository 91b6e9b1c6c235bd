//! The traversal model: one visited filesystem entry per line of the tree
//! listing. Entries carry the path relative to the scan root (slash
//! separated), whether they are files, and for files the text that was read,
//! or None when the file could not be read as text.

use vstd::prelude::*;
use vstd::std_specs::iter::IteratorSpec;
use crate::text::{push_char, spaces};
use crate::ignore::{kept, is_kept};

verus! {

broadcast use vstd::string::axiom_spec_iter, vstd::string::next_postcondition;

/// One filesystem object met by the traversal, in visitation order.
pub struct FsEntry {
    /// Path relative to the scan root, with `/` between components; the root
    /// itself has the empty path and is never listed.
    pub rel_path: String,
    /// Whether this entry is a file (directories are listed, never rendered).
    pub is_file: bool,
    /// For a file, the text read from it, or None when reading failed.
    pub content: Option<String>,
}

pub open spec fn content_view(e: FsEntry) -> Option<Seq<char>> {
    match e.content {
        Some(s) => Some(s@),
        None => None,
    }
}

// ---------- path shape ----------

pub open spec fn count_char(s: Seq<char>, c: char) -> nat
    decreases s.len(),
{
    if s.len() == 0 {
        0
    } else {
        count_char(s.drop_last(), c) + if s.last() == c {
            1nat
        } else {
            0nat
        }
    }
}

/// Number of path components: one more than the number of slashes.
pub open spec fn depth(rel: Seq<char>) -> nat {
    count_char(rel, '/') + 1
}

/// Index of the last slash, or -1 if there is none.
pub open spec fn last_slash(s: Seq<char>) -> int
    decreases s.len(),
{
    if s.len() == 0 {
        -1
    } else if s.last() == '/' {
        s.len() - 1
    } else {
        last_slash(s.drop_last())
    }
}

pub proof fn lemma_last_slash_bounds(s: Seq<char>)
    ensures
        -1 <= last_slash(s) < s.len(),
    decreases s.len(),
{
    if s.len() > 0 && s.last() != '/' {
        lemma_last_slash_bounds(s.drop_last());
    }
}

/// The final path component: everything after the last slash.
pub open spec fn last_component(s: Seq<char>) -> Seq<char> {
    s.subrange(last_slash(s) + 1, s.len() as int)
}

// ---------- the tree listing ----------

/// The listing line of one entry: two spaces of indentation per depth level,
/// the branch marker, the final path component, and a newline.
pub open spec fn tree_line(rel: Seq<char>) -> Seq<char> {
    spaces(2 * depth(rel)) + "├── "@ + last_component(rel) + "\n"@
}

/// The listing lines of the entries that survive pruning, in visitation order.
pub open spec fn tree_lines(entries: Seq<FsEntry>, pats: Seq<String>) -> Seq<char>
    decreases entries.len(),
{
    if entries.len() == 0 {
        Seq::empty()
    } else {
        tree_lines(entries.drop_last(), pats) + if kept(pats, entries.last().rel_path@) {
            tree_line(entries.last().rel_path@)
        } else {
            Seq::empty()
        }
    }
}

/// The whole listing: the root marker line, then one line per kept entry.
pub open spec fn listing(entries: Seq<FsEntry>, pats: Seq<String>) -> Seq<char> {
    ".\n"@ + tree_lines(entries, pats)
}

/// The kept entries that are files, in visitation order; these are the ones
/// whose contents are rendered.
pub open spec fn kept_files(entries: Seq<FsEntry>, pats: Seq<String>) -> Seq<FsEntry>
    decreases entries.len(),
{
    if entries.len() == 0 {
        Seq::empty()
    } else {
        kept_files(entries.drop_last(), pats) + if entries.last().is_file && kept(
            pats,
            entries.last().rel_path@,
        ) {
            seq![entries.last()]
        } else {
            Seq::empty()
        }
    }
}

/// Appends the listing line of one entry, walking its path once: the
/// indentation grows by one level per slash, and the name is reset at each
/// slash so that only the final component is printed.
pub fn append_tree_line(out: &mut String, rel: &str)
    ensures
        final(out)@ == old(out)@ + tree_line(rel@),
{
    let mut indent = String::new();
    indent.append("  ");
    let mut name = String::new();
    let mut it = rel.chars();
    let ghost mut i: int = 0;
    proof {
        reveal_strlit("  ");
        assert(indent@ =~= spaces(2 * depth(rel@.subrange(0, 0))));
        assert(name@ =~= last_component(rel@.subrange(0, 0)));
    }
    loop
        invariant_except_break
            0 <= i <= rel@.len(),
            it.remaining() =~= rel@.subrange(i, rel@.len() as int),
            indent@ =~= spaces(2 * depth(rel@.subrange(0, i))),
            name@ =~= last_component(rel@.subrange(0, i)),
        ensures
            indent@ == spaces(2 * depth(rel@)),
            name@ == last_component(rel@),
        decreases rel@.len() - i,
    {
        match it.next() {
            Some(c) => {
                let ghost pre = rel@.subrange(0, i);
                let ghost pre1 = rel@.subrange(0, i + 1);
                proof {
                    assert(c == rel@[i]);
                    assert(pre1.drop_last() =~= pre);
                    assert(pre1.last() == c);
                    lemma_last_slash_bounds(pre);
                }
                if c == '/' {
                    proof {
                        reveal_strlit("  ");
                    }
                    indent.append("  ");
                    name = String::new();
                    proof {
                        assert(last_slash(pre1) == i);
                        assert(name@ =~= last_component(pre1));
                        assert(indent@ =~= spaces(2 * depth(pre1)));
                    }
                } else {
                    push_char(&mut name, c);
                    proof {
                        assert(count_char(pre1, '/') == count_char(pre, '/'));
                        assert(last_slash(pre1) == last_slash(pre));
                        assert(name@ =~= last_component(pre1));
                        assert(indent@ =~= spaces(2 * depth(pre1)));
                    }
                }
                proof {
                    i = i + 1;
                }
            },
            None => {
                proof {
                    assert(i == rel@.len());
                    assert(rel@.subrange(0, i) =~= rel@);
                }
                break ;
            },
        }
    }
    out.append(indent.as_str());
    out.append("├── ");
    out.append(name.as_str());
    out.append("\n");
    assert(out@ =~= old(out)@ + tree_line(rel@));
}

/// Appends one listing line when the entry is kept, and nothing otherwise;
/// the caller walks the entries in order.
pub fn append_listing_entry(out: &mut String, pats: &Vec<String>, e: &FsEntry)
    ensures
        final(out)@ == old(out)@ + if kept(pats@, e.rel_path@) {
            tree_line(e.rel_path@)
        } else {
            Seq::<char>::empty()
        },
{
    if is_kept(pats, e.rel_path.as_str()) {
        append_tree_line(out, e.rel_path.as_str());
    } else {
        assert(out@ =~= old(out)@ + Seq::<char>::empty());
    }
}

} // verus!
