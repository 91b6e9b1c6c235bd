//! Plain text building blocks: decimal rendering of line numbers, padding,
//! and splitting a file's text into lines.

use vstd::prelude::*;
use vstd::std_specs::iter::IteratorSpec;

verus! {

broadcast use vstd::string::axiom_spec_iter, vstd::string::next_postcondition;

// ---------- decimal digits ----------

/// Number of decimal digits of `n`, with a minimum of 1 (so 0 has width 1).
pub open spec fn digit_count(n: nat) -> nat
    decreases n,
{
    if n < 10 {
        1
    } else {
        1 + digit_count(n / 10)
    }
}

pub open spec fn digit_char(d: nat) -> char {
    if d == 0 {
        '0'
    } else if d == 1 {
        '1'
    } else if d == 2 {
        '2'
    } else if d == 3 {
        '3'
    } else if d == 4 {
        '4'
    } else if d == 5 {
        '5'
    } else if d == 6 {
        '6'
    } else if d == 7 {
        '7'
    } else if d == 8 {
        '8'
    } else {
        '9'
    }
}

/// The decimal rendering of `n`, most significant digit first.
pub open spec fn dec_str(n: nat) -> Seq<char>
    decreases n,
{
    if n < 10 {
        seq![digit_char(n)]
    } else {
        dec_str(n / 10).push(digit_char(n % 10))
    }
}

pub proof fn lemma_dec_str_len(n: nat)
    ensures
        dec_str(n).len() == digit_count(n),
    decreases n,
{
    if n >= 10 {
        lemma_dec_str_len(n / 10);
    }
}

pub proof fn lemma_digit_count_monotone(a: nat, b: nat)
    requires
        a <= b,
    ensures
        digit_count(a) <= digit_count(b),
    decreases b,
{
    if a >= 10 {
        lemma_digit_count_monotone(a / 10, b / 10);
    }
}

pub open spec fn pow10(k: nat) -> nat
    decreases k,
{
    if k == 0 {
        1
    } else {
        10 * pow10((k - 1) as nat)
    }
}

pub proof fn lemma_digit_count_below_pow10(n: nat, k: nat)
    requires
        k >= 1,
        n < pow10(k),
    ensures
        digit_count(n) <= k,
    decreases k,
{
    if n >= 10 {
        assert(pow10(k) == 10 * pow10((k - 1) as nat));
        assert(n / 10 < pow10((k - 1) as nat)) by (nonlinear_arith)
            requires
                n < 10 * pow10((k - 1) as nat),
                n >= 10,
        ;
        lemma_digit_count_below_pow10(n / 10, (k - 1) as nat);
    }
}

pub proof fn lemma_digit_count_usize(n: usize)
    ensures
        digit_count(n as nat) <= 20,
{
    reveal_with_fuel(pow10, 21);
    assert(pow10(20) == 100000000000000000000);
    assert((n as nat) < pow10(20));
    lemma_digit_count_below_pow10(n as nat, 20);
}

/// The column width used for the line numbers of a file with `n` lines.
pub fn line_number_width(n: usize) -> (w: usize)
    ensures
        w == digit_count(n as nat),
{
    proof {
        lemma_digit_count_usize(n);
    }
    let mut w: usize = 1;
    let mut m: usize = n;
    while m >= 10
        invariant
            w >= 1,
            digit_count(n as nat) == w - 1 + digit_count(m as nat),
            digit_count(m as nat) <= 20,
            digit_count(n as nat) <= 20,
            w - 1 + digit_count(m as nat) <= 20,
        decreases m,
    {
        m = m / 10;
        w = w + 1;
    }
    w
}

fn digit_str(d: usize) -> (r: &'static str)
    requires
        d < 10,
    ensures
        r@ =~= seq![digit_char(d as nat)],
{
    proof {
        reveal_strlit("0");
        reveal_strlit("1");
        reveal_strlit("2");
        reveal_strlit("3");
        reveal_strlit("4");
        reveal_strlit("5");
        reveal_strlit("6");
        reveal_strlit("7");
        reveal_strlit("8");
        reveal_strlit("9");
    }
    if d == 0 {
        "0"
    } else if d == 1 {
        "1"
    } else if d == 2 {
        "2"
    } else if d == 3 {
        "3"
    } else if d == 4 {
        "4"
    } else if d == 5 {
        "5"
    } else if d == 6 {
        "6"
    } else if d == 7 {
        "7"
    } else if d == 8 {
        "8"
    } else {
        "9"
    }
}

/// Renders `n` in decimal.
pub fn usize_to_string(n: usize) -> (s: String)
    ensures
        s@ == dec_str(n as nat),
    decreases n,
{
    if n < 10 {
        let d = digit_str(n);
        let s = String::from_str(d);
        assert(s@ =~= dec_str(n as nat));
        s
    } else {
        let mut s = usize_to_string(n / 10);
        let d = digit_str(n % 10);
        s.append(d);
        assert(s@ =~= dec_str(n as nat));
        s
    }
}

// ---------- spaces and alignment ----------

pub open spec fn spaces(k: nat) -> Seq<char> {
    Seq::new(k, |i: int| ' ')
}

/// `s` padded on the left with spaces to width `w` (unchanged if already wider).
pub open spec fn right_aligned(s: Seq<char>, w: nat) -> Seq<char> {
    if s.len() >= w {
        s
    } else {
        spaces((w - s.len()) as nat) + s
    }
}

pub fn append_spaces(out: &mut String, k: usize)
    ensures
        final(out)@ == old(out)@ + spaces(k as nat),
{
    let mut j: usize = 0;
    while j < k
        invariant
            j <= k,
            out@ =~= old(out)@ + spaces(j as nat),
        decreases k - j,
    {
        proof {
            reveal_strlit(" ");
        }
        out.append(" ");
        j = j + 1;
        assert(out@ =~= old(out)@ + spaces(j as nat));
    }
    assert(out@ =~= old(out)@ + spaces(k as nat));
}

// ---------- string equality ----------

/// Character-by-character equality of two strings.
pub fn str_eq(a: &str, b: &str) -> (r: bool)
    ensures
        r == (a@ == b@),
{
    let mut ia = a.chars();
    let mut ib = b.chars();
    let ghost mut i: int = 0;
    loop
        invariant
            0 <= i <= a@.len(),
            i <= b@.len(),
            ia.remaining() =~= a@.subrange(i, a@.len() as int),
            ib.remaining() =~= b@.subrange(i, b@.len() as int),
            a@.subrange(0, i) =~= b@.subrange(0, i),
        decreases a@.len() - i,
    {
        let ca = ia.next();
        let cb = ib.next();
        match (ca, cb) {
            (Some(x), Some(y)) => {
                assert(x == a@[i] && y == b@[i]);
                if x != y {
                    assert(a@ != b@);
                    return false;
                }
                proof {
                    i = i + 1;
                    assert(a@.subrange(0, i) =~= b@.subrange(0, i));
                }
            },
            (None, None) => {
                proof {
                    assert(i == a@.len() && i == b@.len());
                    assert forall|j: int| 0 <= j < a@.len() implies a@[j] == b@[j] by {
                        assert(a@.subrange(0, i)[j] == b@.subrange(0, i)[j]);
                    }
                    assert(a@ =~= b@);
                }
                return true;
            },
            _ => {
                assert(a@.len() != b@.len());
                return false;
            },
        }
    }
}

// ---------- splitting into lines ----------

/// Index of the first newline in `s`, or `s.len()` if there is none.
pub open spec fn find_nl(s: Seq<char>) -> nat
    decreases s.len(),
{
    if s.len() == 0 {
        0
    } else if s[0] == '\n' {
        0
    } else {
        1 + find_nl(s.subrange(1, s.len() as int))
    }
}

/// A line with its terminator removed: a trailing carriage return that stood
/// before the newline is dropped too.
pub open spec fn strip_cr(s: Seq<char>) -> Seq<char> {
    if s.len() > 0 && s.last() == '\r' {
        s.drop_last()
    } else {
        s
    }
}

/// The lines of a text, split at newlines, each with `\n` (and a preceding
/// `\r`, if any) removed; a final line without a terminator is kept whole,
/// and a trailing newline adds no empty line.
pub open spec fn spec_lines(s: Seq<char>) -> Seq<Seq<char>>
    decreases s.len(),
{
    if s.len() == 0 {
        Seq::empty()
    } else {
        let i = find_nl(s);
        if i >= s.len() {
            seq![s]
        } else {
            seq![strip_cr(s.subrange(0, i as int))] + spec_lines(
                s.subrange(i as int + 1, s.len() as int),
            )
        }
    }
}

proof fn lemma_find_nl_none(t: Seq<char>)
    requires
        forall|j: int| 0 <= j < t.len() ==> t[j] != '\n',
    ensures
        find_nl(t) == t.len(),
    decreases t.len(),
{
    if t.len() > 0 {
        lemma_find_nl_none(t.subrange(1, t.len() as int));
    }
}

proof fn lemma_find_nl_at(t: Seq<char>, r: Seq<char>)
    requires
        forall|j: int| 0 <= j < t.len() ==> t[j] != '\n',
    ensures
        find_nl(t + seq!['\n'] + r) == t.len(),
    decreases t.len(),
{
    let s = t + seq!['\n'] + r;
    if t.len() == 0 {
        assert(s[0] == '\n');
    } else {
        let t1 = t.subrange(1, t.len() as int);
        lemma_find_nl_at(t1, r);
        assert(s[0] == t[0]);
        assert(s.subrange(1, s.len() as int) =~= t1 + seq!['\n'] + r);
    }
}

/// Unfolds `spec_lines` at a newline that follows a newline-free prefix.
proof fn lemma_spec_lines_step(t: Seq<char>, r: Seq<char>)
    requires
        forall|j: int| 0 <= j < t.len() ==> t[j] != '\n',
    ensures
        spec_lines(t + seq!['\n'] + r) == seq![strip_cr(t)] + spec_lines(r),
{
    let s = t + seq!['\n'] + r;
    lemma_find_nl_at(t, r);
    assert(s.subrange(0, t.len() as int) =~= t);
    assert(s.subrange(t.len() as int + 1, s.len() as int) =~= r);
}

/// Unfolds `spec_lines` on a newline-free, nonempty text.
proof fn lemma_spec_lines_tail(t: Seq<char>)
    requires
        forall|j: int| 0 <= j < t.len() ==> t[j] != '\n',
        t.len() > 0,
    ensures
        spec_lines(t) == seq![t],
{
    lemma_find_nl_none(t);
}

/// Relies on String::push: it appends exactly the one character.
#[verifier::external_body]
pub fn push_char(s: &mut String, c: char)
    ensures
        final(s)@ == old(s)@.push(c),
{
    s.push(c);
}

/// Relies on String::pop: it removes and returns the last character, or does
/// nothing on an empty string.
#[verifier::external_body]
fn pop_char(s: &mut String) -> (r: Option<char>)
    ensures
        old(s)@.len() > 0 ==> final(s)@ == old(s)@.drop_last() && r == Some(old(s)@.last()),
        old(s)@.len() == 0 ==> final(s)@ == old(s)@ && r is None,
{
    s.pop()
}

/// Splits a text into its lines, as `str::lines` does: terminators are `\n`
/// or `\r\n`, and a final terminator adds no empty line.
pub fn split_lines(s: &str) -> (lines: Vec<String>)
    ensures
        lines@.map_values(|l: String| l@) == spec_lines(s@),
{
    let mut it = s.chars();
    let mut lines: Vec<String> = Vec::new();
    let mut cur = String::new();
    let ghost mut i: int = 0;
    loop
        invariant
            0 <= i <= s@.len(),
            cur@.len() <= i,
            it.remaining() =~= s@.subrange(i, s@.len() as int),
            forall|j: int| 0 <= j < cur@.len() ==> cur@[j] != '\n',
            spec_lines(s@) =~= lines@.map_values(|l: String| l@) + spec_lines(
                cur@ + s@.subrange(i, s@.len() as int),
            ),
        decreases s@.len() - i,
    {
        match it.next() {
            Some(c) => {
                proof {
                    assert(c == s@[i]);
                }
                let ghost rest = s@.subrange(i + 1, s@.len() as int);
                proof {
                    assert(cur@ + s@.subrange(i, s@.len() as int) =~= cur@ + seq![c] + rest);
                }
                if c == '\n' {
                    proof {
                        lemma_spec_lines_step(cur@, rest);
                    }
                    let ghost oldcur = cur@;
                    let mut line = cur;
                    cur = String::new();
                    if !line.as_str().is_empty() {
                        let ghost before = line@;
                        let last = pop_char(&mut line);
                        match last {
                            Some(lc) => {
                                if lc != '\r' {
                                    push_char(&mut line, lc);
                                }
                            },
                            None => {},
                        }
                        proof {
                            assert(line@ =~= strip_cr(before));
                        }
                    }
                    proof {
                        assert(line@ == strip_cr(oldcur));
                    }
                    let ghost lv = lines@.map_values(|l: String| l@);
                    lines.push(line);
                    proof {
                        assert(lines@.map_values(|l: String| l@) =~= lv + seq![strip_cr(oldcur)]);
                        i = i + 1;
                        assert(cur@ + s@.subrange(i, s@.len() as int) =~= rest);
                        assert(spec_lines(oldcur + seq![c] + rest) == seq![strip_cr(oldcur)]
                            + spec_lines(rest));
                    }
                } else {
                    let ghost oldcur = cur@;
                    push_char(&mut cur, c);
                    proof {
                        i = i + 1;
                        assert(cur@ + s@.subrange(i, s@.len() as int) =~= oldcur + seq![c] + rest);
                    }
                }
            },
            None => {
                proof {
                    assert(i == s@.len());
                    assert(cur@ + s@.subrange(i, s@.len() as int) =~= cur@);
                }
                if !cur.as_str().is_empty() {
                    proof {
                        lemma_spec_lines_tail(cur@);
                    }
                    let ghost lv = lines@.map_values(|l: String| l@);
                    let ghost cv = cur@;
                    lines.push(cur);
                    proof {
                        assert(lines@.map_values(|l: String| l@) =~= lv + seq![cv]);
                        assert(lines@.map_values(|l: String| l@) =~= spec_lines(s@));
                    }
                } else {
                    proof {
                        assert(lines@.map_values(|l: String| l@) =~= spec_lines(s@));
                    }
                }
                return lines;
            },
        }
    }
}

} // verus!
