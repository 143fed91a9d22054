use vstd::prelude::*;
use vstd::utf8::{valid_utf8, decode_utf8, encode_utf8_decode_utf8};
use vstd::string::StringSliceAdditionalSpecFns;
use crate::text::{to_chars, trim, trim_bounds};
use crate::parser::{Level, parse_level, classify};

verus! {

/// Per-severity counts of the lines of a log.
#[derive(Debug, Clone, Copy)]
pub struct LogCount {
    pub error: u64,
    pub info: u64,
    pub warn: u64,
    pub malformed: u64,
}

/// Where one raw line lands.
pub enum LineOutcome {
    /// Whitespace only: counted in the total, in no bucket.
    Blank,
    /// Not UTF-8, or a line that `parse_level` rejects.
    Malformed,
    /// A line of the given severity.
    Counted(Level),
}

/// Where the raw (terminator-free) line `b` lands.
pub open spec fn line_outcome(b: Seq<u8>) -> LineOutcome {
    if !valid_utf8(b) {
        LineOutcome::Malformed
    } else {
        let s = trim(decode_utf8(b));
        if s.len() == 0 {
            LineOutcome::Blank
        } else {
            match classify(s) {
                Ok(l) => LineOutcome::Counted(l),
                Err(_) => LineOutcome::Malformed,
            }
        }
    }
}

/// How many of `lines` land in `o`.
pub open spec fn count_of(lines: Seq<Seq<u8>>, o: LineOutcome) -> nat
    decreases lines.len(),
{
    if lines.len() == 0 {
        0
    } else {
        count_of(lines.drop_last(), o) + if line_outcome(lines.last()) == o {
            1nat
        } else {
            0nat
        }
    }
}

impl LogCount {
    /// All counters at zero.
    pub fn new() -> (r: LogCount)
        ensures
            r.error == 0 && r.info == 0 && r.warn == 0 && r.malformed == 0,
    {
        LogCount { error: 0, info: 0, warn: 0, malformed: 0 }
    }

    /// The number of lines in the four buckets together.
    pub open spec fn categorized(&self) -> int {
        self.info + self.warn + self.error + self.malformed
    }

    /// The counts after one more line that lands in `o`.
    pub open spec fn bumped(self, o: LineOutcome) -> LogCount {
        match o {
            LineOutcome::Blank => self,
            LineOutcome::Malformed => LogCount { malformed: (self.malformed + 1) as u64, ..self },
            LineOutcome::Counted(Level::Error) => LogCount { error: (self.error + 1) as u64, ..self },
            LineOutcome::Counted(Level::Info) => LogCount { info: (self.info + 1) as u64, ..self },
            LineOutcome::Counted(Level::Warn) => LogCount { warn: (self.warn + 1) as u64, ..self },
        }
    }

    /// The counts hold exactly the outcomes of `lines`.
    pub open spec fn counts_lines(&self, lines: Seq<Seq<u8>>) -> bool {
        &&& self.info == count_of(lines, LineOutcome::Counted(Level::Info))
        &&& self.warn == count_of(lines, LineOutcome::Counted(Level::Warn))
        &&& self.error == count_of(lines, LineOutcome::Counted(Level::Error))
        &&& self.malformed == count_of(lines, LineOutcome::Malformed)
    }
}

impl Default for LogCount {
    fn default() -> (r: LogCount)
        ensures
            r.error == 0 && r.info == 0 && r.warn == 0 && r.malformed == 0,
    {
        LogCount::new()
    }
}

/// Relies on `std::str::from_utf8`: the bytes are viewed as text exactly when
/// they are valid UTF-8, and the text is made of those same bytes.
#[verifier::external_body]
fn decode_line(b: &[u8]) -> (r: Option<&str>)
    ensures
        r is Some <==> valid_utf8(b@),
        r matches Some(s) ==> s.spec_bytes() == b@,
{
    std::str::from_utf8(b).ok()
}

/// Counts one raw line (its terminator already removed) into `counts` and `total`.
///
/// A line that is not UTF-8 is malformed; one that is blank once trimmed
/// is counted in `total` only; any other is trimmed and given to `parse_level`,
/// and lands in its severity's bucket or, on an error, in `malformed`.
pub fn record_line(counts: &mut LogCount, total: &mut u64, raw: &[u8])
    requires
        old(counts).categorized() <= *old(total) < u64::MAX,
    ensures
        *final(total) == *old(total) + 1,
        *final(counts) == old(counts).bumped(line_outcome(raw@)),
        final(counts).categorized() <= *final(total),
{
    match decode_line(raw) {
        None => {
            counts.malformed = counts.malformed + 1;
        },
        Some(s) => {
            proof {
                encode_utf8_decode_utf8(s@);
            }
            let v = to_chars(s);
            let (a, b) = trim_bounds(&v, 0, v.len());
            assert(v@.subrange(0, v@.len() as int) =~= v@);
            if a < b {
                let t = s.substring_char(a, b);
                let r = parse_level(t);
                match r {
                    Ok(Level::Error) => {
                        counts.error = counts.error + 1;
                    },
                    Ok(Level::Info) => {
                        counts.info = counts.info + 1;
                    },
                    Ok(Level::Warn) => {
                        counts.warn = counts.warn + 1;
                    },
                    Err(_) => {
                        counts.malformed = counts.malformed + 1;
                    },
                }
            }
        },
    }
    *total = *total + 1;
}

/// Counts every line of `lines` (terminators already removed); also returns how many were read.
pub fn count_lines(lines: &Vec<Vec<u8>>) -> (r: (LogCount, u64))
    ensures
        r.0.counts_lines(lines.deep_view()),
        r.1 == lines.len(),
{
    let mut counts = LogCount::new();
    let mut total: u64 = 0;
    let n = lines.len();
    let mut i: usize = 0;
    while i < n
        invariant
            n == lines.len(),
            i <= n,
            total == i,
            counts.categorized() <= total,
            counts.counts_lines(lines.deep_view().subrange(0, i as int)),
        decreases n - i,
    {
        let ghost before = counts;
        record_line(&mut counts, &mut total, lines[i].as_slice());
        proof {
            let pre = lines.deep_view().subrange(0, i as int);
            let post = lines.deep_view().subrange(0, i + 1);
            assert(post.drop_last() =~= pre);
            assert(post.last() == lines[i as int]@);
        }
        i = i + 1;
    }
    assert(lines.deep_view().subrange(0, n as int) =~= lines.deep_view());
    (counts, total)
}

/// How many of `lines` are not valid UTF-8.
pub open spec fn undecodable_count(lines: Seq<Seq<u8>>) -> nat
    decreases lines.len(),
{
    if lines.len() == 0 {
        0
    } else {
        undecodable_count(lines.drop_last()) + if !valid_utf8(lines.last()) {
            1nat
        } else {
            0nat
        }
    }
}

proof fn lemma_outcomes_partition(lines: Seq<Seq<u8>>)
    ensures
        count_of(lines, LineOutcome::Counted(Level::Info)) + count_of(
            lines,
            LineOutcome::Counted(Level::Warn),
        ) + count_of(lines, LineOutcome::Counted(Level::Error)) + count_of(
            lines,
            LineOutcome::Malformed,
        ) + count_of(lines, LineOutcome::Blank) == lines.len(),
        undecodable_count(lines) <= count_of(lines, LineOutcome::Malformed),
    decreases lines.len(),
{
    if lines.len() > 0 {
        lemma_outcomes_partition(lines.drop_last());
    }
}

/// Counts that hold the outcomes of `lines`, read `total` lines in all, leave
/// out of the four buckets exactly the blank lines: the buckets sum to the
/// total less the blank lines, and every line that is not UTF-8 is among the
/// malformed ones.
pub proof fn lemma_counts_conserved(counts: LogCount, total: u64, lines: Seq<Seq<u8>>)
    requires
        counts.counts_lines(lines),
        total == lines.len(),
    ensures
        counts.categorized() == total - count_of(lines, LineOutcome::Blank),
        undecodable_count(lines) <= counts.malformed,
{
    lemma_outcomes_partition(lines);
}

/// `b` without one trailing `\n`, and then without one trailing `\r`.
pub open spec fn without_terminator(b: Seq<u8>) -> Seq<u8> {
    let b1 = if b.len() > 0 && b.last() == 10u8 {
        b.drop_last()
    } else {
        b
    };
    if b1.len() > 0 && b1.last() == 13u8 {
        b1.drop_last()
    } else {
        b1
    }
}

/// A line as read from the input, with its `\n` and a `\r` before it taken off.
pub fn strip_terminator(buf: &[u8]) -> (r: &[u8])
    ensures
        r@ == without_terminator(buf@),
{
    let mut end: usize = buf.len();
    if end > 0 && buf[end - 1] == 10u8 {
        end = end - 1;
    }
    if end > 0 && buf[end - 1] == 13u8 {
        end = end - 1;
    }
    let r = vstd::slice::slice_subrange(buf, 0, end);
    assert(buf@.subrange(0, buf@.len() as int) =~= buf@);
    assert(buf@.subrange(0, buf@.len() - 1) =~= buf@.drop_last());
    assert(end < buf@.len() ==> buf@.subrange(0, end as int) =~= buf@.subrange(0, end + 1).drop_last());
    r
}

} // verus!
