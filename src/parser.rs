use vstd::prelude::*;
use crate::text::{to_chars, trim, is_white, trim_bounds};

verus! {

/// The severity of a log line.
#[derive(Debug, Clone, Copy, PartialEq, Eq, Structural)]
pub enum Level {
    Info,
    Warn,
    Error,
}

/// Why a line could not be given a severity.
#[derive(Debug, PartialEq)]
pub enum LineErr {
    /// The line holds no `|`, so it has no level field.
    MissingField,
    /// The level field is empty once trimmed.
    EmptyLevel,
    /// The trimmed level field holds a control or non-ASCII character `ch`,
    /// `pos` characters from its start.
    MalformedChars { pos: usize, ch: char },
    /// The trimmed level field is well formed but names no severity.
    UnknownLevel(String),
}

/// The mathematical value of a `LineErr`.
pub enum LineErrModel {
    MissingField,
    EmptyLevel,
    MalformedChars { pos: nat, ch: char },
    UnknownLevel(Seq<char>),
}

impl View for LineErr {
    type V = LineErrModel;

    open spec fn view(&self) -> LineErrModel {
        match self {
            LineErr::MissingField => LineErrModel::MissingField,
            LineErr::EmptyLevel => LineErrModel::EmptyLevel,
            LineErr::MalformedChars { pos, ch } => LineErrModel::MalformedChars {
                pos: *pos as nat,
                ch: *ch,
            },
            LineErr::UnknownLevel(s) => LineErrModel::UnknownLevel(s@),
        }
    }
}

/// The mathematical value of what `parse_level` returns.
pub open spec fn outcome_view(r: Result<Level, LineErr>) -> Result<Level, LineErrModel> {
    match r {
        Ok(l) => Ok(l),
        Err(e) => Err(e@),
    }
}

/// `s` up to its first `|`, or all of it when it holds none.
pub open spec fn up_to_pipe(s: Seq<char>) -> Seq<char>
    decreases s.len(),
{
    if s.len() == 0 {
        s
    } else if s[0] == '|' {
        Seq::empty()
    } else {
        seq![s[0]] + up_to_pipe(s.drop_first())
    }
}

/// What follows the first `|` of `s`, or `None` when it holds none.
pub open spec fn after_pipe(s: Seq<char>) -> Option<Seq<char>>
    decreases s.len(),
{
    if s.len() == 0 {
        None
    } else if s[0] == '|' {
        Some(s.drop_first())
    } else {
        after_pipe(s.drop_first())
    }
}

/// The second `|`-separated segment of a line, untrimmed; `None` when the line has no `|`.
pub open spec fn level_field(line: Seq<char>) -> Option<Seq<char>> {
    match after_pipe(line) {
        None => None,
        Some(rest) => Some(up_to_pipe(rest)),
    }
}

/// A C0 or C1 control code, or DEL.
pub open spec fn is_control_code(c: char) -> bool {
    (c as u32) < 0x20 || (0x7f <= (c as u32) && (c as u32) <= 0x9f)
}

/// A character that may not stand in a level field.
pub open spec fn is_malformed_char(c: char) -> bool {
    is_control_code(c) || (c as u32) >= 0x80
}

/// `i` is the index of the first malformed character of `f`.
pub open spec fn first_malformed_at(f: Seq<char>, i: int) -> bool {
    &&& 0 <= i < f.len()
    &&& is_malformed_char(f[i])
    &&& forall|j: int| 0 <= j < i ==> !is_malformed_char(#[trigger] f[j])
}

/// The level field of an error line.
pub open spec fn error_word() -> Seq<char> {
    seq!['E', 'R', 'R', 'O', 'R']
}

/// The level field of an informational line.
pub open spec fn info_word() -> Seq<char> {
    seq!['I', 'N', 'F', 'O']
}

/// The level field of a warning line.
pub open spec fn warn_word() -> Seq<char> {
    seq!['W', 'A', 'R', 'N']
}

/// What a trimmed, well-formed level field names.
pub open spec fn level_named(f: Seq<char>) -> Result<Level, LineErrModel> {
    if f == error_word() {
        Ok(Level::Error)
    } else if f == info_word() {
        Ok(Level::Info)
    } else if f == warn_word() {
        Ok(Level::Warn)
    } else {
        Err(LineErrModel::UnknownLevel(f))
    }
}

/// The classification of one line.
pub open spec fn classify(line: Seq<char>) -> Result<Level, LineErrModel> {
    match level_field(line) {
        None => Err(LineErrModel::MissingField),
        Some(raw) => {
            let f = trim(raw);
            if f.len() == 0 {
                Err(LineErrModel::EmptyLevel)
            } else if exists|i: int| first_malformed_at(f, i) {
                let i = choose|i: int| first_malformed_at(f, i);
                Err(LineErrModel::MalformedChars { pos: i as nat, ch: f[i] })
            } else {
                level_named(f)
            }
        }
    }
}

/// The bounds of the level field of the line `v`, or `None` when `v` holds no `|`.
fn level_bounds(v: &Vec<char>) -> (r: Option<(usize, usize)>)
    ensures
        match level_field(v@) {
            None => r is None,
            Some(f) => r matches Some(p) && p.0 <= p.1 <= v.len() && v@.subrange(
                p.0 as int,
                p.1 as int,
            ) == f,
        },
{
    let n = v.len();
    let mut i: usize = 0;
    assert(v@.subrange(0, n as int) =~= v@);
    while i < n && v[i] != '|'
        invariant
            i <= n == v.len(),
            after_pipe(v@) == after_pipe(v@.subrange(i as int, n as int)),
        decreases n - i,
    {
        assert(v@.subrange(i as int, n as int).drop_first() =~= v@.subrange(i + 1, n as int));
        i = i + 1;
    }
    if i == n {
        return None;
    }
    assert(v@.subrange(i as int, n as int).drop_first() =~= v@.subrange(i + 1, n as int));
    let ghost rest = v@.subrange(i + 1, n as int);
    let mut j: usize = i + 1;
    assert(v@.subrange(i + 1, j as int) + v@.subrange(j as int, n as int) =~= rest);
    while j < n && v[j] != '|'
        invariant
            i < j <= n == v.len(),
            rest == v@.subrange(i + 1, n as int),
            up_to_pipe(rest) == v@.subrange(i + 1, j as int) + up_to_pipe(
                v@.subrange(j as int, n as int),
            ),
        decreases n - j,
    {
        let ghost tail = v@.subrange(j as int, n as int);
        assert(tail.drop_first() =~= v@.subrange(j + 1, n as int));
        assert(v@.subrange(i + 1, j as int) + seq![v@[j as int]] =~= v@.subrange(i + 1, j + 1));
        assert(v@.subrange(i + 1, j as int) + (seq![v@[j as int]] + up_to_pipe(tail.drop_first()))
            =~= v@.subrange(i + 1, j + 1) + up_to_pipe(tail.drop_first()));
        j = j + 1;
    }
    assert(up_to_pipe(v@.subrange(j as int, n as int)) =~= Seq::<char>::empty());
    assert(v@.subrange(i + 1, j as int) + Seq::<char>::empty() =~= v@.subrange(i + 1, j as int));
    Some((i + 1, j))
}

/// Whether `c` is a control code or lies outside ASCII.
fn char_is_malformed(c: char) -> (r: bool)
    ensures
        r == is_malformed_char(c),
{
    let u = c as u32;
    u < 0x20 || u >= 0x7f
}

/// The index of the first malformed character of `v[lo..hi]`, if any.
fn find_malformed(v: &Vec<char>, lo: usize, hi: usize) -> (r: Option<usize>)
    requires
        lo <= hi <= v.len(),
    ensures
        match r {
            None => forall|j: int| lo <= j < hi ==> !is_malformed_char(#[trigger] v@[j]),
            Some(i) => lo <= i < hi && first_malformed_at(
                v@.subrange(lo as int, hi as int),
                i - lo,
            ),
        },
{
    let mut i: usize = lo;
    while i < hi
        invariant
            lo <= i <= hi <= v.len(),
            forall|j: int| lo <= j < i ==> !is_malformed_char(#[trigger] v@[j]),
        decreases hi - i,
    {
        if char_is_malformed(v[i]) {
            let ghost f = v@.subrange(lo as int, hi as int);
            assert forall|j: int| 0 <= j < i - lo implies !is_malformed_char(#[trigger] f[j]) by {
                assert(f[j] == v@[lo + j]);
            }
            return Some(i);
        }
        i = i + 1;
    }
    None
}

/// Whether `v[lo..hi]` is the word `w`.
fn span_equals(v: &Vec<char>, lo: usize, hi: usize, w: &[char]) -> (r: bool)
    requires
        lo <= hi <= v.len(),
    ensures
        r == (v@.subrange(lo as int, hi as int) == w@),
{
    if hi - lo != w.len() {
        return false;
    }
    let mut k: usize = 0;
    while k < w.len()
        invariant
            lo <= hi <= v.len(),
            hi - lo == w@.len(),
            k <= w@.len(),
            forall|j: int| 0 <= j < k ==> v@[lo + j] == w@[j],
        decreases w@.len() - k,
    {
        if v[lo + k] != w[k] {
            assert(v@.subrange(lo as int, hi as int)[k as int] != w@[k as int]);
            return false;
        }
        k = k + 1;
    }
    assert(v@.subrange(lo as int, hi as int) =~= w@);
    true
}

/// Reads the severity of a log line `<timestamp>|<level>|<service>|<message>`.
///
/// Only the level field, the text between the first and the second `|` (or the
/// end of the line), is read; it is trimmed, checked for control and non-ASCII
/// characters, and compared exactly with `ERROR`, `INFO` and `WARN`.
pub fn parse_level(line: &str) -> (r: Result<Level, LineErr>)
    ensures
        outcome_view(r) == classify(line@),
{
    let v = to_chars(line);
    let (a, b) = match level_bounds(&v) {
        None => {
            return Err(LineErr::MissingField);
        },
        Some(p) => p,
    };
    let (lo, hi) = trim_bounds(&v, a, b);
    let ghost f = v@.subrange(lo as int, hi as int);
    if lo == hi {
        return Err(LineErr::EmptyLevel);
    }
    match find_malformed(&v, lo, hi) {
        Some(i) => {
            proof {
                let k = choose|k: int| first_malformed_at(f, k);
                assert(k == i - lo) by {
                    if k < i - lo {
                        assert(!is_malformed_char(f[k]));
                    }
                    if k > i - lo {
                        assert(!is_malformed_char(f[i - lo]));
                    }
                }
            }
            return Err(LineErr::MalformedChars { pos: i - lo, ch: v[i] });
        },
        None => {
            assert forall|k: int| !first_malformed_at(f, k) by {
                if 0 <= k < f.len() {
                    assert(f[k] == v@[lo + k]);
                }
            }
        },
    }
    let error_chars = ['E', 'R', 'R', 'O', 'R'];
    let info_chars = ['I', 'N', 'F', 'O'];
    let warn_chars = ['W', 'A', 'R', 'N'];
    assert(error_chars@ =~= error_word());
    assert(info_chars@ =~= info_word());
    assert(warn_chars@ =~= warn_word());
    if span_equals(&v, lo, hi, &error_chars) {
        Ok(Level::Error)
    } else if span_equals(&v, lo, hi, &info_chars) {
        Ok(Level::Info)
    } else if span_equals(&v, lo, hi, &warn_chars) {
        Ok(Level::Warn)
    } else {
        let text = line.substring_char(lo, hi);
        Err(LineErr::UnknownLevel(text.to_owned()))
    }
}

proof fn lemma_after_pipe(prefix: Seq<char>, rest: Seq<char>)
    requires
        forall|i: int| 0 <= i < prefix.len() ==> prefix[i] != '|',
    ensures
        after_pipe(prefix + seq!['|'] + rest) == Some(rest),
    decreases prefix.len(),
{
    let s = prefix + seq!['|'] + rest;
    if prefix.len() == 0 {
        assert(s.drop_first() =~= rest);
    } else {
        assert(s.drop_first() =~= prefix.drop_first() + seq!['|'] + rest);
        lemma_after_pipe(prefix.drop_first(), rest);
    }
}

proof fn lemma_up_to_pipe(seg: Seq<char>, tail: Seq<char>)
    requires
        forall|i: int| 0 <= i < seg.len() ==> seg[i] != '|',
        tail.len() == 0 || tail[0] == '|',
    ensures
        up_to_pipe(seg + tail) == seg,
    decreases seg.len(),
{
    let s = seg + tail;
    if seg.len() == 0 {
        assert(s =~= tail);
    } else {
        assert(s.drop_first() =~= seg.drop_first() + tail);
        lemma_up_to_pipe(seg.drop_first(), tail);
        assert(seq![seg[0]] + seg.drop_first() =~= seg);
    }
}

/// A line with no `|` has no level field.
proof fn lemma_no_pipe(line: Seq<char>)
    requires
        forall|i: int| 0 <= i < line.len() ==> line[i] != '|',
    ensures
        after_pipe(line) is None,
    decreases line.len(),
{
    if line.len() > 0 {
        lemma_no_pipe(line.drop_first());
    }
}

/// The level field of `prefix|seg<tail>` is `seg`, where neither `prefix` nor
/// `seg` holds a `|` and `tail` is empty or starts with one.
pub proof fn lemma_level_field(prefix: Seq<char>, seg: Seq<char>, tail: Seq<char>)
    requires
        forall|i: int| 0 <= i < prefix.len() ==> prefix[i] != '|',
        forall|i: int| 0 <= i < seg.len() ==> seg[i] != '|',
        tail.len() == 0 || tail[0] == '|',
    ensures
        level_field(prefix + seq!['|'] + seg + tail) == Some(seg),
{
    assert(prefix + seq!['|'] + seg + tail =~= prefix + seq!['|'] + (seg + tail));
    lemma_after_pipe(prefix, seg + tail);
    lemma_up_to_pipe(seg, tail);
}

proof fn lemma_trim_all_white(s: Seq<char>)
    requires
        forall|i: int| 0 <= i < s.len() ==> is_white(s[i]),
    ensures
        trim(s).len() == 0,
    decreases s.len(),
{
    if s.len() > 0 {
        lemma_trim_all_white(s.drop_first());
    }
}

proof fn lemma_words_well_formed()
    ensures
        forall|i: int| 0 <= i < error_word().len() ==> !is_malformed_char(#[trigger] error_word()[i]),
        forall|i: int| 0 <= i < info_word().len() ==> !is_malformed_char(#[trigger] info_word()[i]),
        forall|i: int| 0 <= i < warn_word().len() ==> !is_malformed_char(#[trigger] warn_word()[i]),
{
}

/// A line with no `|` at all is rejected as missing its level field.
pub proof fn lemma_missing_field(line: Seq<char>)
    requires
        forall|i: int| 0 <= i < line.len() ==> line[i] != '|',
    ensures
        classify(line) == Err::<Level, LineErrModel>(LineErrModel::MissingField),
{
    lemma_no_pipe(line);
}

/// A line whose level field is empty or whitespace only is rejected as an empty level.
pub proof fn lemma_empty_level(prefix: Seq<char>, seg: Seq<char>, tail: Seq<char>)
    requires
        forall|i: int| 0 <= i < prefix.len() ==> prefix[i] != '|',
        forall|i: int| 0 <= i < seg.len() ==> seg[i] != '|' && is_white(seg[i]),
        tail.len() == 0 || tail[0] == '|',
    ensures
        classify(prefix + seq!['|'] + seg + tail) == Err::<Level, LineErrModel>(
            LineErrModel::EmptyLevel,
        ),
{
    lemma_level_field(prefix, seg, tail);
    lemma_trim_all_white(seg);
}

/// A line gets a severity exactly when its trimmed level field is, letter for
/// letter, `ERROR`, `INFO` or `WARN`, and then the one it names; any other
/// well-formed, non-empty field (`info`, `Warn`, `WARNING`) is an unknown level
/// that carries the trimmed field.
pub proof fn lemma_exact_match(prefix: Seq<char>, seg: Seq<char>, tail: Seq<char>)
    requires
        forall|i: int| 0 <= i < prefix.len() ==> prefix[i] != '|',
        forall|i: int| 0 <= i < seg.len() ==> seg[i] != '|',
        tail.len() == 0 || tail[0] == '|',
    ensures
        ({
            let r = classify(prefix + seq!['|'] + seg + tail);
            let f = trim(seg);
            &&& r is Ok <==> (f == error_word() || f == info_word() || f == warn_word())
            &&& r == Ok::<Level, LineErrModel>(Level::Error) <==> f == error_word()
            &&& r == Ok::<Level, LineErrModel>(Level::Info) <==> f == info_word()
            &&& r == Ok::<Level, LineErrModel>(Level::Warn) <==> f == warn_word()
            &&& (f.len() > 0 && (forall|i: int| 0 <= i < f.len() ==> !is_malformed_char(#[trigger] f[i]))
                && f != error_word() && f != info_word() && f != warn_word())
                ==> r == Err::<Level, LineErrModel>(LineErrModel::UnknownLevel(f))
        }),
{
    lemma_level_field(prefix, seg, tail);
    lemma_words_well_formed();
    let f = trim(seg);
    if f == error_word() || f == info_word() || f == warn_word() {
        assert(!exists|i: int| first_malformed_at(f, i));
    }
    if f.len() > 0 && (forall|i: int| 0 <= i < f.len() ==> !is_malformed_char(#[trigger] f[i])) {
        assert(!exists|i: int| first_malformed_at(f, i));
    }
}

/// A level field whose first malformed character, counted from the start of
/// the trimmed field, stands at `k` is rejected with that position and character.
pub proof fn lemma_malformed_position(
    prefix: Seq<char>,
    seg: Seq<char>,
    tail: Seq<char>,
    k: int,
)
    requires
        forall|i: int| 0 <= i < prefix.len() ==> prefix[i] != '|',
        forall|i: int| 0 <= i < seg.len() ==> seg[i] != '|',
        tail.len() == 0 || tail[0] == '|',
        0 <= k < trim(seg).len(),
        is_malformed_char(trim(seg)[k]),
        forall|j: int| 0 <= j < k ==> !is_malformed_char(#[trigger] trim(seg)[j]),
    ensures
        classify(prefix + seq!['|'] + seg + tail) == Err::<Level, LineErrModel>(
            LineErrModel::MalformedChars { pos: k as nat, ch: trim(seg)[k] },
        ),
{
    lemma_level_field(prefix, seg, tail);
    let f = trim(seg);
    assert(first_malformed_at(f, k));
    let c = choose|i: int| first_malformed_at(f, i);
    if c < k {
        assert(!is_malformed_char(f[c]));
    }
    if c > k {
        assert(!is_malformed_char(f[k]));
    }
}

} // verus!
