use vstd::prelude::*;
use vstd::string::*;

verus! {

/// Number of line breaks in `s`.
pub open spec fn newline_count(s: Seq<char>) -> int
    decreases s.len(),
{
    if s.len() == 0 {
        0
    } else {
        newline_count(s.drop_last()) + if s.last() == '\n' {
            1int
        } else {
            0int
        }
    }
}

/// Start of the line holding position `off`: the position right after the
/// previous line break, or the start of the document.
pub open spec fn line_start_at(s: Seq<char>, off: int) -> int
    decreases off,
{
    if off <= 0 {
        0
    } else if s[off - 1] == '\n' {
        off
    } else {
        line_start_at(s, off - 1)
    }
}

/// End of the line holding position `off`: the next line break, or the
/// end of the document.
pub open spec fn line_end_at(s: Seq<char>, off: int) -> int
    decreases s.len() - off,
{
    if off >= s.len() {
        s.len() as int
    } else if s[off] == '\n' {
        off
    } else {
        line_end_at(s, off + 1)
    }
}

/// Where a diagnostic's document span sits in the document, ready for
/// display: the 1-based line number, the line's bounds, and the marked
/// span clamped to that line.
pub struct Excerpt {
    pub line_number: usize,
    pub line_start: usize,
    pub line_end: usize,
    pub mark_start: usize,
    pub mark_end: usize,
}

/// Counting line breaks never exceeds the length counted over.
proof fn lemma_newline_count_le_len(s: Seq<char>)
    ensures
        0 <= newline_count(s) <= s.len(),
    decreases s.len(),
{
    if s.len() > 0 {
        lemma_newline_count_le_len(s.drop_last());
    }
}

/// Computes the excerpt location for a document span: the line number is
/// derived from the resolved document offset (one plus the line breaks
/// before it), never fixed in advance. `None` exactly where the offset
/// lies outside the document; the caller then degrades to a plain report
/// for that one diagnostic.
pub fn excerpt_for(doc: &Vec<char>, off: usize, len: usize) -> (r: Option<Excerpt>)
    requires
        doc@.len() < usize::MAX,
    ensures
        match r {
            Some(e) => off <= doc@.len() && e.line_number == 1 + newline_count(doc@.take(off as int))
                && e.line_start == line_start_at(doc@, off as int) && e.line_end == line_end_at(
                doc@,
                off as int,
            ) && e.mark_start == off - e.line_start && e.mark_end == (if off + len
                <= e.line_end as int {
                (off + len) as int
            } else {
                e.line_end as int
            }) - e.line_start,
            None => off > doc@.len(),
        },
{
    if off > doc.len() {
        return None;
    }
    // Line number: count the line breaks before the offset.
    let mut breaks: usize = 0;
    let mut k: usize = 0;
    proof {
        assert(doc@.take(0) =~= Seq::<char>::empty());
        lemma_newline_count_le_len(doc@.take(off as int));
    }
    while k < off
        invariant
            k <= off <= doc@.len() < usize::MAX,
            breaks == newline_count(doc@.take(k as int)),
            breaks <= k,
        decreases off - k,
    {
        proof {
            assert(doc@.take(k as int + 1).drop_last() =~= doc@.take(k as int));
            assert(doc@.take(k as int + 1).last() == doc@[k as int]);
        }
        if doc[k] == '\n' {
            breaks = breaks + 1;
        }
        k = k + 1;
    }
    let line_number = breaks + 1;
    // Line start: walk back to the previous line break.
    let mut line_start: usize = off;
    while line_start > 0 && doc[line_start - 1] != '\n'
        invariant
            line_start <= off <= doc@.len(),
            line_start_at(doc@, off as int) == line_start_at(doc@, line_start as int),
        decreases line_start,
    {
        line_start = line_start - 1;
    }
    // Line end: walk forward to the next line break.
    let mut line_end: usize = off;
    while line_end < doc.len() && doc[line_end] != '\n'
        invariant
            off <= line_end <= doc@.len(),
            line_end_at(doc@, off as int) == line_end_at(doc@, line_end as int),
        decreases doc@.len() - line_end,
    {
        line_end = line_end + 1;
    }
    // The marked span, clamped to the line it starts on.
    let mark_start = off - line_start;
    let mark_end = if len >= line_end - off {
        line_end - line_start
    } else {
        off + len - line_start
    };
    Some(Excerpt { line_number, line_start, line_end, mark_start, mark_end })
}

/// The characters of a text, for position-wise work.
pub fn str_chars(s: &str) -> (v: Vec<char>)
    ensures
        v@ == s@,
{
    let n = s.unicode_len();
    let mut v: Vec<char> = Vec::new();
    let mut k: usize = 0;
    while k < n
        invariant
            k <= n,
            n == s@.len(),
            v@ =~= s@.take(k as int),
        decreases n - k,
    {
        v.push(s.get_char(k));
        proof {
            assert(v@ =~= s@.take(k as int + 1));
        }
        k = k + 1;
    }
    proof {
        assert(s@.take(n as int) =~= s@);
    }
    v
}

/// The slice of the document between two character positions, as a text
/// for display.
pub fn chars_range(doc: &Vec<char>, from: usize, to: usize) -> (r: Vec<char>)
    requires
        from <= to <= doc@.len(),
    ensures
        r@ == doc@.subrange(from as int, to as int),
{
    let mut r: Vec<char> = Vec::new();
    let mut k: usize = from;
    while k < to
        invariant
            from <= k <= to <= doc@.len(),
            r@ =~= doc@.subrange(from as int, k as int),
        decreases to - k,
    {
        r.push(doc[k]);
        proof {
            assert(r@ =~= doc@.subrange(from as int, k as int + 1));
        }
        k = k + 1;
    }
    r
}

} // verus!
