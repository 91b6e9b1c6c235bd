//! Content rendering: each kept file contributes a delimited header block and
//! its text with right-aligned line numbers, or a placeholder line when the
//! file could not be read; a failed file never stops the files after it.

use vstd::prelude::*;
use crate::text::{
    digit_count, dec_str, right_aligned, spec_lines, spaces, line_number_width, usize_to_string,
    append_spaces, split_lines, lemma_dec_str_len, lemma_digit_count_monotone,
};
use crate::walk::{FsEntry, content_view};

verus! {

// ---------- numbered lines ----------

/// One rendered source line: the 1-based line number right-aligned to the
/// column width, a separator, the line itself, and a newline.
pub open spec fn rendered_line(line: Seq<char>, num: nat, w: nat) -> Seq<char> {
    right_aligned(dec_str(num), w) + " | "@ + line + "\n"@
}

/// The first `k` rendered lines, at column width `w`.
pub open spec fn rendered_upto(lines: Seq<Seq<char>>, w: nat, k: int) -> Seq<char>
    decreases k,
{
    if k <= 0 {
        Seq::empty()
    } else {
        rendered_upto(lines, w, k - 1) + rendered_line(lines[k - 1], k as nat, w)
    }
}

/// A file's rendered text: every line numbered, at the width of the decimal
/// digit count of the number of lines (an empty file uses width 1).
pub open spec fn rendered(lines: Seq<Seq<char>>) -> Seq<char> {
    rendered_upto(lines, digit_count(lines.len()), lines.len() as int)
}

/// Every rendered line has the shape right-aligned(number, width) + " | " +
/// line, where the width is the decimal digit count of the line count `n`,
/// at least 1, and 1 when `n` is 0; the aligned number fills the width
/// exactly.
pub proof fn lemma_rendered_line_format(lines: Seq<Seq<char>>, i: int)
    requires
        0 <= i < lines.len(),
    ensures
        rendered(lines) == rendered_upto(lines, digit_count(lines.len()), lines.len() as int),
        digit_count(lines.len()) >= 1,
        lines.len() == 0 ==> digit_count(lines.len()) == 1,
        rendered_upto(lines, digit_count(lines.len()), i + 1) == rendered_upto(
            lines,
            digit_count(lines.len()),
            i,
        ) + rendered_line(lines[i], (i + 1) as nat, digit_count(lines.len())),
        right_aligned(dec_str((i + 1) as nat), digit_count(lines.len())).len() == digit_count(
            lines.len(),
        ),
{
    let w = digit_count(lines.len());
    lemma_dec_str_len((i + 1) as nat);
    lemma_digit_count_monotone((i + 1) as nat, lines.len());
}

/// Appends the numbered rendering of a file's lines.
pub fn append_rendered_lines(out: &mut String, lines: &Vec<String>)
    ensures
        final(out)@ == old(out)@ + rendered(lines@.map_values(|l: String| l@)),
{
    let ghost lv = lines@.map_values(|l: String| l@);
    let n = lines.len();
    let w = line_number_width(n);
    let mut k: usize = 0;
    proof {
        assert(out@ =~= old(out)@ + rendered_upto(lv, w as nat, 0));
    }
    while k < n
        invariant
            k <= n,
            n == lines@.len(),
            w == digit_count(n as nat),
            lv == lines@.map_values(|l: String| l@),
            out@ == old(out)@ + rendered_upto(lv, w as nat, k as int),
        decreases n - k,
    {
        let dw = line_number_width(k + 1);
        proof {
            lemma_dec_str_len((k + 1) as nat);
            lemma_digit_count_monotone((k + 1) as nat, n as nat);
        }
        append_spaces(out, w - dw);
        let num = usize_to_string(k + 1);
        out.append(num.as_str());
        out.append(" | ");
        out.append(lines[k].as_str());
        out.append("\n");
        proof {
            assert(lv[k as int] == lines@[k as int]@);
            assert(spaces((w - dw) as nat) + dec_str((k + 1) as nat) =~= right_aligned(
                dec_str((k + 1) as nat),
                w as nat,
            ));
            assert(out@ =~= old(out)@ + rendered_upto(lv, w as nat, k + 1));
        }
        k = k + 1;
    }
    proof {
        assert(out@ =~= old(out)@ + rendered(lv));
    }
}

// ---------- per-file blocks ----------

/// The header of a file's block: a delimiter line, the path prefixed with a
/// slash, and a delimiter line followed by a blank line.
pub open spec fn header(rel: Seq<char>) -> Seq<char> {
    "--------------------------------------------------\n"@ + "/"@ + rel + "\n"@
        + "--------------------------------------------------\n\n"@
}

pub open spec fn placeholder_line() -> Seq<char> {
    "[Error: could not read file. It may be binary.]\n"@
}

/// A file's body: its numbered lines, or the placeholder when it was
/// unreadable.
pub open spec fn body_text(content: Option<Seq<char>>) -> Seq<char> {
    match content {
        Some(c) => rendered(spec_lines(c)),
        None => placeholder_line(),
    }
}

/// One file's whole contribution: header, body, and a blank separator.
pub open spec fn file_block(rel: Seq<char>, content: Option<Seq<char>>) -> Seq<char> {
    header(rel) + body_text(content) + "\n\n"@
}

/// The rendered contents of a list of files, in order; each file contributes
/// its block independently of every other.
pub open spec fn blocks(files: Seq<FsEntry>) -> Seq<char>
    decreases files.len(),
{
    if files.len() == 0 {
        Seq::empty()
    } else {
        blocks(files.drop_last()) + file_block(
            files.last().rel_path@,
            content_view(files.last()),
        )
    }
}

pub proof fn lemma_blocks_concat(a: Seq<FsEntry>, b: Seq<FsEntry>)
    ensures
        blocks(a + b) == blocks(a) + blocks(b),
    decreases b.len(),
{
    if b.len() == 0 {
        assert(a + b =~= a);
        assert(blocks(a) + blocks(b) =~= blocks(a));
    } else {
        lemma_blocks_concat(a, b.drop_last());
        assert((a + b).drop_last() =~= a + b.drop_last());
        assert((a + b).last() == b.last());
        assert(blocks(a) + blocks(b.drop_last()) + file_block(
            b.last().rel_path@,
            content_view(b.last()),
        ) =~= blocks(a) + blocks(b));
    }
}

/// An unreadable file still contributes its header block plus the placeholder
/// line, and the files after it are rendered exactly as they otherwise would
/// be: the content text splits around the failed file.
pub proof fn lemma_unreadable_file_block(files: Seq<FsEntry>, i: int)
    requires
        0 <= i < files.len(),
        files[i].content is None,
    ensures
        blocks(files) == blocks(files.subrange(0, i)) + (header(files[i].rel_path@)
            + placeholder_line() + "\n\n"@) + blocks(files.subrange(i + 1, files.len() as int)),
{
    let pre = files.subrange(0, i);
    let mid = seq![files[i]];
    let post = files.subrange(i + 1, files.len() as int);
    assert(files =~= pre + mid + post);
    lemma_blocks_concat(pre + mid, post);
    lemma_blocks_concat(pre, mid);
    assert(mid.drop_last() =~= Seq::<FsEntry>::empty());
    assert(mid.last() == files[i]);
    assert(content_view(files[i]) == None::<Seq<char>>);
    assert(blocks(Seq::<FsEntry>::empty()) == Seq::<char>::empty());
    assert(blocks(mid) =~= file_block(files[i].rel_path@, None));
    assert(file_block(files[i].rel_path@, None) == header(files[i].rel_path@) + placeholder_line()
        + "\n\n"@);
}

/// Appends one file's block: header, numbered lines or placeholder, separator.
pub fn append_file_block(out: &mut String, e: &FsEntry)
    ensures
        final(out)@ == old(out)@ + file_block(e.rel_path@, content_view(*e)),
{
    out.append("--------------------------------------------------\n");
    out.append("/");
    out.append(e.rel_path.as_str());
    out.append("\n");
    out.append("--------------------------------------------------\n\n");
    match &e.content {
        Some(c) => {
            let lines = split_lines(c.as_str());
            append_rendered_lines(out, &lines);
        },
        None => {
            out.append("[Error: could not read file. It may be binary.]\n");
        },
    }
    out.append("\n\n");
    assert(out@ =~= old(out)@ + file_block(e.rel_path@, content_view(*e)));
}

} // verus!
