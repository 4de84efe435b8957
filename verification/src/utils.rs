//! The work distributor and the formatting helpers around the core: a
//! balanced partition of the input list across workers, elapsed-time strings,
//! and output-name derivation from the recognized file-name suffixes.

use vstd::prelude::*;
use vstd::arithmetic::div_mod::lemma_fundamental_div_mod;
use vstd::string::StrSliceExecFns;
use vstd::string::StringExecFns;

verus! {

/// The index `j` falls inside one of the ranges.
pub open spec fn covered_by(group: Seq<Vec<usize>>, j: int) -> bool {
    exists|i: int| 0 <= i < group.len() && (#[trigger] group[i]@[0]) <= j < group[i]@[1]
}

/// Splits `n` work items into contiguous index ranges, one per worker.
/// With fewer items than workers, each item forms a singleton range and the
/// spare workers get none. Otherwise every worker gets `n / thread` items and
/// the first `n % thread` workers one more, each range starting where the
/// previous one ends. The ranges partition `[0, n)` exactly: they are
/// consecutive, non-empty, cover every index, and never overlap; sizes differ
/// by at most one, larger ranges first.
pub fn split_2_group(thread: usize, n: usize) -> (group: Vec<Vec<usize>>)
    requires
        thread >= 1,
    ensures
        group@.len() == if n < thread { n as int } else { thread as int },
        forall|i: int| 0 <= i < group@.len() ==> #[trigger] group@[i]@.len() == 2,
        forall|i: int| 0 <= i < group@.len() ==> #[trigger] group@[i]@[0] < group@[i]@[1] <= n,
        group@.len() > 0 ==> group@[0]@[0] == 0 && group@[group@.len() - 1]@[1] == n,
        forall|i: int| 0 <= i < group@.len() - 1 ==> #[trigger] group@[i]@[1] == group@[i + 1]@[0],
        forall|j: int| 0 <= j < n ==> #[trigger] covered_by(group@, j),
        forall|i1: int, i2: int| 0 <= i1 < i2 < group@.len()
            ==> #[trigger] group@[i1]@[1] <= #[trigger] group@[i2]@[0],
        n < thread ==> forall|i: int| 0 <= i < group@.len()
            ==> (#[trigger] group@[i]@[0]) == i && group@[i]@[1] == i + 1,
        n >= thread ==> forall|i: int| 0 <= i < group@.len()
            ==> (#[trigger] group@[i]@[1]) - group@[i]@[0]
                == n as int / thread as int + if i < n as int % thread as int { 1int } else { 0int },
        forall|i1: int, i2: int| 0 <= i1 < i2 < group@.len()
            ==> (#[trigger] group@[i2]@[1]) - group@[i2]@[0]
                <= (#[trigger] group@[i1]@[1]) - group@[i1]@[0]
                <= group@[i2]@[1] - group@[i2]@[0] + 1,
{
    let mut group: Vec<Vec<usize>> = Vec::new();
    if n < thread {
        let mut i: usize = 0;
        while i < n
            invariant
                0 <= i <= n,
                n < thread,
                group@.len() == i,
                forall|t: int| 0 <= t < i ==> #[trigger] group@[t]@.len() == 2,
                forall|t: int| 0 <= t < i
                    ==> (#[trigger] group@[t]@[0]) == t && group@[t]@[1] == t + 1,
            decreases n - i,
        {
            let mut r: Vec<usize> = Vec::new();
            r.push(i);
            r.push(i + 1);
            group.push(r);
            i += 1;
        }
    } else {
        let q = n / thread;
        let rem = n % thread;
        proof {
            lemma_fundamental_div_mod(n as int, thread as int);
            assert(q >= 1) by {
                if n as int / thread as int <= 0 {
                    assert(thread as int * (n as int / thread as int) <= 0)
                        by (nonlinear_arith)
                        requires
                            thread as int >= 1,
                            n as int / thread as int <= 0,
                    ;
                }
            }
        }
        let mut m: usize = 0;
        let mut start: usize = 0;
        let mut i: usize = 0;
        while i < thread
            invariant
                1 <= thread <= n,
                0 <= i <= thread,
                q == n as int / thread as int,
                rem == n as int % thread as int,
                q >= 1,
                m == if i <= rem { i as int } else { rem as int },
                group@.len() == i,
                start as int + (thread - i) as int * q as int + (rem as int - m as int)
                    == n as int,
                forall|t: int| 0 <= t < i ==> #[trigger] group@[t]@.len() == 2,
                forall|t: int| 0 <= t < i ==> (#[trigger] group@[t]@[1]) - group@[t]@[0]
                    == q as int + if t < rem as int { 1int } else { 0int },
                forall|t: int| 0 <= t < i
                    ==> (#[trigger] group@[t]@[0]) < group@[t]@[1] <= start,
                i == 0 ==> start == 0,
                i > 0 ==> group@[0]@[0] == 0 && group@[i - 1]@[1] == start,
                forall|t: int| 0 <= t < i - 1
                    ==> (#[trigger] group@[t]@[1]) == group@[t + 1]@[0],
                forall|t1: int, t2: int| 0 <= t1 < t2 < i
                    ==> (#[trigger] group@[t1]@[1]) <= (#[trigger] group@[t2]@[0]),
                forall|j: int| 0 <= j < start ==> #[trigger] covered_by(group@, j),
            decreases thread - i,
        {
            proof {
                assert((thread - i) as int * q as int >= q as int) by (nonlinear_arith)
                    requires
                        q >= 1,
                        i < thread,
                ;
                assert((thread - i) as int * q as int
                    == (thread - (i + 1)) as int * q as int + q as int) by (nonlinear_arith)
                    requires
                        i < thread,
                ;
            }
            let end = if i < rem {
                start + q + 1
            } else {
                start + q
            };
            let ghost gpre = group@;
            let ghost start_pre = start as int;
            let mut r: Vec<usize> = Vec::new();
            r.push(start);
            r.push(end);
            group.push(r);
            if i < rem {
                m += 1;
            }
            start = end;
            i += 1;
            proof {
                assert forall|j: int| 0 <= j < start implies #[trigger] covered_by(group@, j) by {
                    if j < start_pre {
                        assert(covered_by(gpre, j));
                        let t = choose|t: int|
                            0 <= t < gpre.len() && (#[trigger] gpre[t]@[0]) <= j < gpre[t]@[1];
                        assert(group@[t]@[0] <= j < group@[t]@[1]);
                    } else {
                        assert(group@[gpre.len() as int]@[0] <= j < group@[gpre.len() as int]@[1]);
                    }
                }
            }
        }
        proof {
            assert((thread - i) as int * q as int == 0) by (nonlinear_arith)
                requires
                    i == thread,
            ;
            assert(start as int == n as int);
        }
    }
    proof {
        if n < thread {
            assert forall|j: int| 0 <= j < n implies #[trigger] covered_by(group@, j) by {
                assert(group@[j]@[0] <= j < group@[j]@[1]);
            }
            if n > 0 {
                assert(group@[0]@[0] == 0);
                assert(group@[n - 1]@[0] == n - 1);
            }
            assert forall|i1: int, i2: int| 0 <= i1 < i2 < group@.len() implies
                (#[trigger] group@[i1]@[1]) <= (#[trigger] group@[i2]@[0]) by {
                assert(group@[i1]@[0] == i1);
                assert(group@[i2]@[0] == i2);
            }
            assert forall|i: int| 0 <= i < group@.len() - 1 implies
                (#[trigger] group@[i]@[1]) == group@[i + 1]@[0] by {
                assert(group@[i]@[0] == i);
                assert(group@[i + 1]@[0] == i + 1);
            }
        }
    }
    group
}

/// The decimal digit for a value in `0 .. 10`.
pub open spec fn dec_digit_char(d: int) -> char {
    if d == 0 {
        '0'
    } else if d == 1 {
        '1'
    } else if d == 2 {
        '2'
    } else if d == 3 {
        '3'
    } else if d == 4 {
        '4'
    } else if d == 5 {
        '5'
    } else if d == 6 {
        '6'
    } else if d == 7 {
        '7'
    } else if d == 8 {
        '8'
    } else {
        '9'
    }
}

/// The usual decimal rendering of a non-negative integer, most significant
/// digit first, with no leading zeros except for zero itself.
pub open spec fn dec_chars(n: int) -> Seq<char>
    decreases n,
{
    if n < 10 {
        seq![dec_digit_char(n)]
    } else {
        dec_chars(n / 10).push(dec_digit_char(n % 10))
    }
}

/// The single-character string for a decimal digit.
fn digit_str(d: u128) -> (r: &'static str)
    requires
        d < 10,
    ensures
        r@ =~= seq![dec_digit_char(d as int)],
{
    proof {
        reveal_strlit("0");
        reveal_strlit("1");
        reveal_strlit("2");
        reveal_strlit("3");
        reveal_strlit("4");
        reveal_strlit("5");
        reveal_strlit("6");
        reveal_strlit("7");
        reveal_strlit("8");
        reveal_strlit("9");
    }
    if d == 0 {
        "0"
    } else if d == 1 {
        "1"
    } else if d == 2 {
        "2"
    } else if d == 3 {
        "3"
    } else if d == 4 {
        "4"
    } else if d == 5 {
        "5"
    } else if d == 6 {
        "6"
    } else if d == 7 {
        "7"
    } else if d == 8 {
        "8"
    } else {
        "9"
    }
}

/// Appends the decimal rendering of `n` to a string.
fn push_decimal(s: &mut String, n: u128)
    ensures
        final(s)@ == old(s)@ + dec_chars(n as int),
    decreases n,
{
    let ghost s0 = s@;
    if n >= 10 {
        push_decimal(s, n / 10);
    }
    let ds = digit_str(n % 10);
    s.append(ds);
    proof {
        assert(s@ =~= s0 + dec_chars(n as int));
    }
}

/// The elapsed-time report: the label, a colon, and the duration scaled to
/// the coarsest unit whose value is non-zero, with minutes only past the
/// ten-minute mark.
pub open spec fn my_time_spec(info: Seq<char>, t: int) -> Seq<char> {
    if t / 600000000000 > 0 {
        info + ": "@ + dec_chars(t / 60000000000) + " (min)"@
    } else if t / 1000000000 > 0 {
        info + ": "@ + dec_chars(t / 1000000000) + " (s)"@
    } else if t / 1000000 > 0 {
        info + ": "@ + dec_chars(t / 1000000) + " (ms)"@
    } else if t / 1000 > 0 {
        info + ": "@ + dec_chars(t / 1000) + " (us)"@
    } else {
        info + ": "@ + dec_chars(t) + " (ns)"@
    }
}

/// Formats a duration of `t` nanoseconds under the label `info`, choosing
/// the coarsest unit that shows a non-zero value and switching to minutes
/// only beyond ten minutes.
pub fn my_time(info: &str, t: u128) -> (s: String)
    ensures
        s@ == my_time_spec(info@, t as int),
{
    let mut s = info.to_owned();
    let ghost s0 = s@;
    if t / 600000000000 > 0 {
        s.append(": ");
        push_decimal(&mut s, t / 60000000000);
        s.append(" (min)");
    } else if t / 1000000000 > 0 {
        s.append(": ");
        push_decimal(&mut s, t / 1000000000);
        s.append(" (s)");
    } else if t / 1000000 > 0 {
        s.append(": ");
        push_decimal(&mut s, t / 1000000);
        s.append(" (ms)");
    } else if t / 1000 > 0 {
        s.append(": ");
        push_decimal(&mut s, t / 1000);
        s.append(" (us)");
    } else {
        s.append(": ");
        push_decimal(&mut s, t);
        s.append(" (ns)");
    }
    proof {
        assert(s@ =~= my_time_spec(info@, t as int));
    }
    s
}

/// How many file-name suffixes are recognized.
pub const SUFFIX_COUNT: usize = 18;

/// The recognized file-name suffixes, in the order they are tried: the
/// paired-end markers with each extension first, then the bare extensions.
pub open spec fn suffix_at(i: int) -> Seq<char> {
    if i == 0 {
        "_R1.fastq"@
    } else if i == 1 {
        "_R1.fastq.gz"@
    } else if i == 2 {
        "_R1.fq"@
    } else if i == 3 {
        "_R1.fq.gz"@
    } else if i == 4 {
        "_R1.txt"@
    } else if i == 5 {
        "_R1.txt.gz"@
    } else if i == 6 {
        "_R2.fastq"@
    } else if i == 7 {
        "_R2.fastq.gz"@
    } else if i == 8 {
        "_R2.fq"@
    } else if i == 9 {
        "_R2.fq.gz"@
    } else if i == 10 {
        "_R2.txt"@
    } else if i == 11 {
        "_R2.txt.gz"@
    } else if i == 12 {
        ".fastq"@
    } else if i == 13 {
        ".fastq.gz"@
    } else if i == 14 {
        ".fq"@
    } else if i == 15 {
        ".fq.gz"@
    } else if i == 16 {
        ".txt"@
    } else {
        ".txt.gz"@
    }
}

/// The recognized suffix at a table position.
fn suffix_str(i: usize) -> (r: &'static str)
    requires
        i < SUFFIX_COUNT,
    ensures
        r@ == suffix_at(i as int),
{
    if i == 0 {
        "_R1.fastq"
    } else if i == 1 {
        "_R1.fastq.gz"
    } else if i == 2 {
        "_R1.fq"
    } else if i == 3 {
        "_R1.fq.gz"
    } else if i == 4 {
        "_R1.txt"
    } else if i == 5 {
        "_R1.txt.gz"
    } else if i == 6 {
        "_R2.fastq"
    } else if i == 7 {
        "_R2.fastq.gz"
    } else if i == 8 {
        "_R2.fq"
    } else if i == 9 {
        "_R2.fq.gz"
    } else if i == 10 {
        "_R2.txt"
    } else if i == 11 {
        "_R2.txt.gz"
    } else if i == 12 {
        ".fastq"
    } else if i == 13 {
        ".fastq.gz"
    } else if i == 14 {
        ".fq"
    } else if i == 15 {
        ".fq.gz"
    } else if i == 16 {
        ".txt"
    } else {
        ".txt.gz"
    }
}

/// A name carries a suffix when its last characters spell it out.
pub open spec fn ends_with_spec(name: Seq<char>, suffix: Seq<char>) -> bool {
    suffix.len() <= name.len()
        && name.subrange(name.len() - suffix.len(), name.len() as int) == suffix
}

/// The first recognized suffix of the name at table position `i` or later;
/// `SUFFIX_COUNT` when none matches.
pub open spec fn first_suffix_match(name: Seq<char>, i: int) -> int
    decreases SUFFIX_COUNT - i,
{
    if i >= SUFFIX_COUNT {
        SUFFIX_COUNT as int
    } else if ends_with_spec(name, suffix_at(i)) {
        i
    } else {
        first_suffix_match(name, i + 1)
    }
}

/// What the derived output name is: with a recognized suffix, the stem, then
/// `_ratio_`, the ratio text, and the suffix unchanged; with none, the
/// original name.
pub open spec fn output_name_spec(name: Seq<char>, ratio: Seq<char>) -> Seq<char> {
    let m = first_suffix_match(name, 0);
    if m == SUFFIX_COUNT {
        name
    } else {
        name.subrange(0, name.len() - suffix_at(m).len()) + "_ratio_"@ + ratio + suffix_at(m)
    }
}

/// Whether `name` ends with `suffix`, by characters.
fn ends_with(name: &str, suffix: &str) -> (r: bool)
    ensures
        r == ends_with_spec(name@, suffix@),
{
    let nlen = name.unicode_len();
    let slen = suffix.unicode_len();
    if slen > nlen {
        return false;
    }
    let mut i: usize = 0;
    while i < slen
        invariant
            0 <= i <= slen,
            slen == suffix@.len(),
            nlen == name@.len(),
            slen <= nlen,
            forall|j: int| 0 <= j < i
                ==> name@[nlen - slen + j] == #[trigger] suffix@[j],
        decreases slen - i,
    {
        if name.get_char(nlen - slen + i) != suffix.get_char(i) {
            return false;
        }
        i += 1;
    }
    proof {
        assert(name@.subrange(nlen as int - slen as int, nlen as int) =~= suffix@);
    }
    true
}

/// Derives the output file name from an input file name and the rendered
/// mutation ratio: the first recognized suffix is cut off, `_ratio_` and the
/// ratio text are inserted, and the suffix is put back; a name with no
/// recognized suffix is reused unchanged.
pub fn get_output_name(file_name: &str, ratio_text: &str) -> (out: String)
    ensures
        out@ == output_name_spec(file_name@, ratio_text@),
{
    let nlen = file_name.unicode_len();
    let mut t: usize = 0;
    while t < SUFFIX_COUNT
        invariant
            0 <= t <= SUFFIX_COUNT,
            nlen == file_name@.len(),
            first_suffix_match(file_name@, 0) == first_suffix_match(file_name@, t as int),
        decreases SUFFIX_COUNT - t,
    {
        let suffix = suffix_str(t);
        if ends_with(file_name, suffix) {
            let slen = suffix.unicode_len();
            let stem = file_name.substring_char(0, nlen - slen);
            let mut out = stem.to_owned();
            out.append("_ratio_");
            out.append(ratio_text);
            out.append(suffix);
            proof {
                assert(first_suffix_match(file_name@, t as int) == t as int);
                assert(out@ =~= output_name_spec(file_name@, ratio_text@));
            }
            return out;
        }
        t += 1;
    }
    file_name.to_owned()
}

} // verus!
