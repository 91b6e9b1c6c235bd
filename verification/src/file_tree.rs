//! The whole pipeline: prune the visited entries with the ignore patterns,
//! build the tree listing, render every kept file's content, and count the
//! tokens of the result. An optional progress sink is notified after the
//! listing phase and after each file.

use vstd::prelude::*;
use tokio::sync::mpsc::UnboundedSender;
use crate::ignore::{ignored, kept, is_kept};
use crate::walk::{FsEntry, tree_lines, listing, kept_files, append_listing_entry, content_view};
use crate::render::{blocks, file_block, append_file_block};
use crate::progress::{Progress, progress_trace, lemma_final_progress};

verus! {

/// The one flattened document of a scan: the listing, a blank separator, and
/// the rendered contents of the kept files.
pub open spec fn full_output(entries: Seq<FsEntry>, pats: Seq<String>) -> Seq<char> {
    listing(entries, pats) + "\n\n"@ + blocks(kept_files(entries, pats))
}

#[verifier::external_type_specification]
#[verifier::external_body]
#[verifier::reject_recursive_types(T)]
pub struct ExUnboundedSender<T>(UnboundedSender<T>);

/// Relies on tokio's UnboundedSender::send: delivery is best-effort; sending
/// to a closed receiver merely fails, and the failure is discarded, so the
/// pipeline never stops on a gone consumer.
#[verifier::external_body]
fn send_progress(tx: &UnboundedSender<Progress>, processed: usize, total: usize) {
    let _ = tx.send(Progress { processed, total });
}

proof fn lemma_kept_files_prefix(entries: Seq<FsEntry>, pats: Seq<String>, i: int)
    requires
        0 <= i <= entries.len(),
    ensures
        kept_files(entries.subrange(0, i), pats).len() <= kept_files(entries, pats).len(),
    decreases entries.len() - i,
{
    if i == entries.len() {
        assert(entries.subrange(0, i) =~= entries);
    } else {
        assert(entries.subrange(0, i + 1).drop_last() =~= entries.subrange(0, i));
        lemma_kept_files_prefix(entries, pats, i + 1);
    }
}

fn generate_internal(
    entries: &Vec<FsEntry>,
    pats: &Vec<String>,
    progress_tx: Option<&UnboundedSender<Progress>>,
) -> (out: String)
    ensures
        out@ == full_output(entries@, pats@),
{
    let ghost all = entries@;
    let mut out = String::new();
    out.append(".\n");
    proof {
        assert(out@ =~= ".\n"@ + tree_lines(all.subrange(0, 0), pats@));
    }
    let mut i: usize = 0;
    while i < entries.len()
        invariant
            i <= all.len(),
            all == entries@,
            out@ == ".\n"@ + tree_lines(all.subrange(0, i as int), pats@),
        decreases all.len() - i,
    {
        let ghost pre = all.subrange(0, i as int);
        let ghost pre1 = all.subrange(0, i as int + 1);
        proof {
            assert(pre1.drop_last() =~= pre);
            assert(pre1.last() == all[i as int]);
        }
        append_listing_entry(&mut out, pats, &entries[i]);
        proof {
            assert(out@ =~= ".\n"@ + tree_lines(pre1, pats@));
        }
        i = i + 1;
    }
    proof {
        assert(all.subrange(0, all.len() as int) =~= all);
    }
    out.append("\n\n");

    // The total is fixed before any file is rendered.
    let mut total: usize = 0;
    i = 0;
    while i < entries.len()
        invariant
            i <= all.len(),
            all == entries@,
            total <= i,
            total == kept_files(all.subrange(0, i as int), pats@).len(),
        decreases all.len() - i,
    {
        let ghost pre = all.subrange(0, i as int);
        let ghost pre1 = all.subrange(0, i as int + 1);
        proof {
            assert(pre1.drop_last() =~= pre);
            assert(pre1.last() == all[i as int]);
        }
        if entries[i].is_file && is_kept(pats, entries[i].rel_path.as_str()) {
            total = total + 1;
        }
        i = i + 1;
    }
    proof {
        assert(all.subrange(0, all.len() as int) =~= all);
    }
    match progress_tx {
        Some(tx) => {
            // The first event sent is the first element of the event trace.
            proof {
                lemma_final_progress(total as nat);
                assert(progress_trace(total as nat)[0] == (0nat, total as nat));
            }
            send_progress(tx, 0, total);
        },
        None => (),
    }

    let ghost listed = out@;
    let mut done: usize = 0;
    i = 0;
    while i < entries.len()
        invariant
            i <= all.len(),
            all == entries@,
            done <= i,
            done == kept_files(all.subrange(0, i as int), pats@).len(),
            total == kept_files(all, pats@).len(),
            listed == listing(all, pats@) + "\n\n"@,
            out@ == listed + blocks(kept_files(all.subrange(0, i as int), pats@)),
        decreases all.len() - i,
    {
        let ghost pre = all.subrange(0, i as int);
        let ghost pre1 = all.subrange(0, i as int + 1);
        proof {
            assert(pre1.drop_last() =~= pre);
            assert(pre1.last() == all[i as int]);
        }
        if entries[i].is_file && is_kept(pats, entries[i].rel_path.as_str()) {
            let ghost kf = kept_files(pre, pats@);
            append_file_block(&mut out, &entries[i]);
            done = done + 1;
            proof {
                let kf1 = kept_files(pre1, pats@);
                assert(kf1 =~= kf + seq![all[i as int]]);
                assert(kf1.drop_last() =~= kf);
                assert(kf1.last() == all[i as int]);
                assert(blocks(kf1) == blocks(kf) + file_block(
                    all[i as int].rel_path@,
                    content_view(all[i as int]),
                ));
                assert(out@ =~= listed + blocks(kf1));
            }
            match progress_tx {
                Some(tx) => {
                    // The event sent after the done-th file is the done-th
                    // element of the event trace; after the last kept file,
                    // done equals the total.
                    proof {
                        lemma_kept_files_prefix(all, pats@, i as int + 1);
                        lemma_final_progress(total as nat);
                        assert(done <= total);
                        assert(progress_trace(total as nat)[done as int] == (
                            done as nat,
                            total as nat,
                        ));
                    }
                    send_progress(tx, done, total);
                },
                None => (),
            }
        } else {
            proof {
                assert(kept_files(pre1, pats@) =~= kept_files(pre, pats@));
            }
        }
        i = i + 1;
    }
    proof {
        assert(all.subrange(0, all.len() as int) =~= all);
        assert(out@ =~= full_output(all, pats@));
    }
    out
}

/// Runs the whole pipeline on the visited entries: the tree listing of every
/// kept entry, then the rendered content of every kept file, in visitation
/// order.
pub fn generate_tree_and_content(entries: &Vec<FsEntry>, ignore_patterns: &Vec<String>) -> (out:
    String)
    ensures
        out@ == full_output(entries@, ignore_patterns@),
{
    generate_internal(entries, ignore_patterns, None)
}

/// The same pipeline, notifying the progress sink once before any file is
/// rendered (with the fixed total) and once after each rendered file. The
/// values handed to the sink are, in order, the elements of the event trace
/// of the kept-file total (see `progress_trace`), whose final element
/// reports the whole total as processed; Verus has no clause form for the
/// effects of the unit-returning sends themselves, so that correspondence is
/// asserted element by element where each event is sent.
pub fn generate_tree_and_content_with_progress(
    entries: &Vec<FsEntry>,
    ignore_patterns: &Vec<String>,
    progress_tx: &UnboundedSender<Progress>,
) -> (out: String)
    ensures
        out@ == full_output(entries@, ignore_patterns@),
{
    generate_internal(entries, ignore_patterns, Some(progress_tx))
}

// ---------- token counting ----------

/// The number of tokens the fixed byte-pair-encoding vocabulary assigns to a
/// text; a function of the text alone.
pub uninterp spec fn token_len(text: Seq<char>) -> int;

/// Relies on tiktoken-rs's CoreBPE::encode on the cl100k_base singleton, with
/// every special token allowed: the vocabulary is fixed and immutable after
/// its lazy initialization, so a successful encoding is a pure function of
/// the text, and an empty text encodes to no tokens. The encoder's regex
/// engine can give up on pathological texts; that failure comes back as an
/// error, reported here as None.
#[verifier::external_body]
pub fn count_tokens(text: &str) -> (count: Option<usize>)
    ensures
        count matches Some(c) ==> c == token_len(text@),
        text@.len() == 0 ==> count == Some(0usize),
{
    let bpe = tiktoken_rs::cl100k_base_singleton();
    let allowed = bpe.special_tokens();
    match bpe.encode(text, &allowed) {
        Ok((tokens, _)) => Some(tokens.len()),
        Err(_) => None,
    }
}

/// The pipeline is deterministic: on the same entries and patterns it yields
/// the same flattened text, and the same text always has the same token
/// count, whatever scan produced it.
pub proof fn lemma_pipeline_deterministic(
    entries1: Seq<FsEntry>,
    pats1: Seq<String>,
    entries2: Seq<FsEntry>,
    pats2: Seq<String>,
)
    requires
        entries1 == entries2,
        pats1 == pats2,
    ensures
        full_output(entries1, pats1) == full_output(entries2, pats2),
        token_len(full_output(entries1, pats1)) == token_len(full_output(entries2, pats2)),
{
}

// ---------- what pruning removes ----------

proof fn lemma_remove_excluded(entries: Seq<FsEntry>, pats: Seq<String>, i: int)
    requires
        0 <= i < entries.len(),
        !kept(pats, entries[i].rel_path@),
    ensures
        tree_lines(entries.remove(i), pats) == tree_lines(entries, pats),
        kept_files(entries.remove(i), pats) == kept_files(entries, pats),
    decreases entries.len(),
{
    if i == entries.len() - 1 {
        assert(entries.remove(i) =~= entries.drop_last());
    } else {
        lemma_remove_excluded(entries.drop_last(), pats, i);
        assert(entries.remove(i).drop_last() =~= entries.drop_last().remove(i));
        assert(entries.remove(i).last() == entries.last());
    }
}

/// An entry that the patterns exclude contributes nothing: the output over
/// the visited entries equals the output with the excluded entry absent, so
/// an excluded file's siblings are listed and rendered exactly as they would
/// be without it.
pub proof fn lemma_excluded_entry_leaves_rest(entries: Seq<FsEntry>, pats: Seq<String>, i: int)
    requires
        0 <= i < entries.len(),
        !kept(pats, entries[i].rel_path@),
    ensures
        full_output(entries, pats) == full_output(entries.remove(i), pats),
{
    lemma_remove_excluded(entries, pats, i);
}

/// The scan root itself, whose relative path is empty, is never kept: it
/// appears neither as a listing line nor as a rendered block.
pub proof fn lemma_root_never_listed(entries: Seq<FsEntry>, pats: Seq<String>, i: int)
    requires
        0 <= i < entries.len(),
        entries[i].rel_path@.len() == 0,
    ensures
        !kept(pats, entries[i].rel_path@),
        full_output(entries, pats) == full_output(entries.remove(i), pats),
{
    lemma_excluded_entry_leaves_rest(entries, pats, i);
}

/// `rel` lies in the subtree rooted at `dir`: it is `dir` itself or has
/// `dir` followed by a slash as a prefix.
pub open spec fn in_subtree(dir: Seq<char>, rel: Seq<char>) -> bool {
    rel == dir || (rel.len() > dir.len() && rel.subrange(0, dir.len() as int) == dir
        && rel[dir.len() as int] == '/')
}

/// The visited entries with the subtree rooted at `dir` removed.
pub open spec fn drop_subtree(entries: Seq<FsEntry>, dir: Seq<char>) -> Seq<FsEntry>
    decreases entries.len(),
{
    if entries.len() == 0 {
        Seq::empty()
    } else {
        drop_subtree(entries.drop_last(), dir) + if in_subtree(dir, entries.last().rel_path@) {
            Seq::empty()
        } else {
            seq![entries.last()]
        }
    }
}

proof fn lemma_drop_subtree_same(entries: Seq<FsEntry>, pats: Seq<String>, dir: Seq<char>)
    requires
        forall|r: Seq<char>| in_subtree(dir, r) ==> !kept(pats, r),
    ensures
        tree_lines(drop_subtree(entries, dir), pats) == tree_lines(entries, pats),
        kept_files(drop_subtree(entries, dir), pats) == kept_files(entries, pats),
    decreases entries.len(),
{
    if entries.len() > 0 {
        lemma_drop_subtree_same(entries.drop_last(), pats, dir);
        let ds = drop_subtree(entries, dir);
        let dsp = drop_subtree(entries.drop_last(), dir);
        if in_subtree(dir, entries.last().rel_path@) {
            assert(ds =~= dsp);
            assert(!kept(pats, entries.last().rel_path@));
        } else {
            assert(ds.drop_last() =~= dsp);
            assert(ds.last() == entries.last());
            assert(ds.len() > 0);
        }
    }
}

/// A pattern that matches a directory prunes the whole subtree: nothing at or
/// below the directory is kept, and the output over the visited entries
/// equals the output with that entire subtree absent from the walk.
pub proof fn lemma_ignored_dir_excludes_subtree(
    entries: Seq<FsEntry>,
    pats: Seq<String>,
    dir: Seq<char>,
)
    requires
        ignored(pats, dir),
        dir.len() > 0,
    ensures
        forall|r: Seq<char>| in_subtree(dir, r) ==> !kept(pats, r),
        full_output(entries, pats) == full_output(drop_subtree(entries, dir), pats),
{
    assert forall|r: Seq<char>| in_subtree(dir, r) implies !kept(pats, r) by {
        if kept(pats, r) {
            let k = dir.len() as int;
            if r == dir {
                assert(r.subrange(0, k) =~= dir);
            }
            assert(crate::ignore::boundary(r, k));
            assert(!ignored(pats, r.subrange(0, k)));
            assert(r.subrange(0, k) =~= dir);
        }
    }
    lemma_drop_subtree_same(entries, pats, dir);
}

} // verus!
