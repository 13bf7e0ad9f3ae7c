//! Parsing of sector-range list lines.
//!
//! A line names an inclusive range as `start;end` in decimal. Anything from
//! the first `#` on is a comment; a line that held a comment is trimmed of
//! surrounding whitespace. A line that is empty after that is skipped;
//! text past a second `;` is ignored; anything else that is not two
//! decimal numbers is invalid.

use vstd::arithmetic::div_mod::lemma_fundamental_div_mod;
use vstd::prelude::*;

verus! {

/// An ASCII decimal digit.
pub open spec fn is_digit(c: u8) -> bool {
    48 <= c && c <= 57
}

/// Every byte is a decimal digit.
pub open spec fn all_digits(s: Seq<u8>) -> bool {
    forall|k: int| 0 <= k < s.len() ==> is_digit(#[trigger] s[k])
}

/// The decimal value of a digit string.
pub open spec fn dec_val(s: Seq<u8>) -> int
    decreases s.len(),
{
    if s.len() == 0 {
        0
    } else {
        dec_val(s.drop_last()) * 10 + (s.last() - 48)
    }
}

proof fn lemma_dec_val_nonneg(s: Seq<u8>)
    requires
        all_digits(s),
    ensures
        dec_val(s) >= 0,
    decreases s.len(),
{
    if s.len() > 0 {
        assert(all_digits(s.drop_last())) by {
            assert(forall|k: int|
                0 <= k < s.len() - 1 ==> s.drop_last()[k] == #[trigger] s[k]);
        }
        lemma_dec_val_nonneg(s.drop_last());
    }
}

proof fn lemma_dec_val_prefix_le(s: Seq<u8>, i: int)
    requires
        all_digits(s),
        0 <= i <= s.len(),
    ensures
        dec_val(s.subrange(0, i)) <= dec_val(s),
    decreases s.len() - i,
{
    if i < s.len() {
        lemma_dec_val_prefix_le(s, i + 1);
        let pre = s.subrange(0, i + 1);
        assert(pre.drop_last() =~= s.subrange(0, i));
        assert(all_digits(s.subrange(0, i))) by {
            assert(forall|k: int|
                0 <= k < i ==> s.subrange(0, i)[k] == #[trigger] s[k]);
        }
        lemma_dec_val_nonneg(s.subrange(0, i));
    } else {
        assert(s.subrange(0, i) =~= s);
    }
}

/// Parse a decimal `u64`: succeeds exactly on a non-empty digit string
/// whose value fits, and then returns that value.
pub fn parse_u64_dec(s: &[u8]) -> (r: Option<u64>)
    ensures
        r is Some <==> (s@.len() > 0 && all_digits(s@) && dec_val(s@) <= u64::MAX),
        r matches Some(v) ==> v as int == dec_val(s@),
{
    let n: usize = s.len();
    if n == 0 {
        return None;
    }
    let mut v: u64 = 0;
    let mut i: usize = 0;
    while i < n
        invariant
            i <= n,
            n == s@.len(),
            all_digits(s@.subrange(0, i as int)),
            v as int == dec_val(s@.subrange(0, i as int)),
        decreases n - i,
    {
        let b = *vstd::slice::slice_index_get(s, i);
        proof {
            let pre = s@.subrange(0, i as int + 1);
            assert(pre.drop_last() =~= s@.subrange(0, i as int));
            assert(pre.last() == b);
        }
        if b < 48 || b > 57 {
            return None;
        }
        let d: u64 = (b - 48) as u64;
        if v > (u64::MAX - d) / 10 {
            proof {
                lemma_fundamental_div_mod(u64::MAX - d, 10);
                assert(dec_val(s@.subrange(0, i as int + 1)) > u64::MAX);
                if all_digits(s@) && dec_val(s@) <= u64::MAX {
                    lemma_dec_val_prefix_le(s@, i as int + 1);
                }
            }
            return None;
        }
        proof {
            lemma_fundamental_div_mod(u64::MAX - d, 10);
        }
        v = v * 10 + d;
        i = i + 1;
    }
    proof {
        assert(s@.subrange(0, n as int) =~= s@);
    }
    Some(v)
}

/// The byte values the line syntax singles out.
pub const HASH: u8 = 35;

/// Semicolon, the field separator.
pub const SEMI: u8 = 59;

/// ASCII whitespace as trimming sees it.
pub open spec fn is_space(c: u8) -> bool {
    c == 32 || c == 9 || c == 13
}

/// The prefix of a line before its first `#`.
pub open spec fn before_byte(s: Seq<u8>, stop: u8) -> Seq<u8>
    decreases s.len(),
{
    if s.len() == 0 {
        s
    } else if s.first() == stop {
        Seq::empty()
    } else {
        seq![s.first()] + before_byte(s.drop_first(), stop)
    }
}

/// Does the line hold the byte anywhere?
pub open spec fn has_byte(s: Seq<u8>, b: u8) -> bool {
    exists|k: int| 0 <= k < s.len() && s[k] == b
}

/// The line with leading whitespace dropped.
pub open spec fn trim_front(s: Seq<u8>) -> Seq<u8>
    decreases s.len(),
{
    if s.len() > 0 && is_space(s.first()) {
        trim_front(s.drop_first())
    } else {
        s
    }
}

/// The line with trailing whitespace dropped.
pub open spec fn trim_back(s: Seq<u8>) -> Seq<u8>
    decreases s.len(),
{
    if s.len() > 0 && is_space(s.last()) {
        trim_back(s.drop_last())
    } else {
        s
    }
}

/// A line as the range reader sees it: comment stripped, and trimmed
/// exactly when a comment was there.
pub open spec fn stripped_line(s: Seq<u8>) -> Seq<u8> {
    if has_byte(s, HASH) {
        trim_back(trim_front(before_byte(s, HASH)))
    } else {
        s
    }
}

/// What one line of a range list means.
#[derive(Clone, Copy, Debug, PartialEq, Eq, Structural)]
pub enum RangeLine {
    /// Nothing on the line (after comment stripping): skip it.
    Blank,
    /// A well-formed `start;end` pair.
    Range(u64, u64),
    /// A non-blank line that does not parse as two decimal fields.
    Invalid,
}

/// The first `;`-separated field of the stripped line.
pub open spec fn first_field(s: Seq<u8>) -> Seq<u8> {
    before_byte(s, SEMI)
}

/// The second `;`-separated field: between the first `;` and the next one
/// (or the line's end).
pub open spec fn second_field(s: Seq<u8>) -> Seq<u8> {
    before_byte(s.skip(first_field(s).len() as int + 1), SEMI)
}

/// What a line of the range list parses to.
pub open spec fn spec_parse_range_line(line: Seq<u8>) -> RangeLine {
    let sp = stripped_line(line);
    if sp.len() == 0 {
        RangeLine::Blank
    } else if !has_byte(sp, SEMI) {
        RangeLine::Invalid
    } else {
        let a = first_field(sp);
        let b = second_field(sp);
        if a.len() > 0 && all_digits(a) && dec_val(a) <= u64::MAX && b.len() > 0 && all_digits(b)
            && dec_val(b) <= u64::MAX {
            RangeLine::Range(dec_val(a) as u64, dec_val(b) as u64)
        } else {
            RangeLine::Invalid
        }
    }
}

proof fn lemma_before_byte_at(s: Seq<u8>, stop: u8, h: int)
    requires
        0 <= h <= s.len(),
        forall|k: int| 0 <= k < h ==> s[k] != stop,
        h < s.len() ==> s[h] == stop,
    ensures
        before_byte(s, stop) =~= s.subrange(0, h),
        has_byte(s, stop) <==> h < s.len(),
    decreases s.len(),
{
    if s.len() == 0 {
    } else if s.first() == stop {
        assert(h == 0);
    } else {
        lemma_before_byte_at(s.drop_first(), stop, h - 1);
        assert(seq![s.first()] + s.drop_first().subrange(0, h - 1) =~= s.subrange(0, h));
        if h < s.len() {
            assert(s.drop_first()[h - 1] == stop);
        } else {
            assert(forall|k: int|
                0 <= k < s.len() - 1 ==> s.drop_first()[k] == #[trigger] s[k + 1]);
        }
    }
}

proof fn lemma_trim_front_at(s: Seq<u8>, a: int)
    requires
        0 <= a <= s.len(),
        forall|k: int| 0 <= k < a ==> is_space(s[k]),
        a < s.len() ==> !is_space(s[a]),
    ensures
        trim_front(s) =~= s.subrange(a, s.len() as int),
    decreases s.len(),
{
    if s.len() > 0 && is_space(s.first()) {
        assert(a > 0);
        lemma_trim_front_at(s.drop_first(), a - 1);
        assert(s.drop_first().subrange(a - 1, s.len() - 1) =~= s.subrange(a, s.len() as int));
    } else {
        assert(a == 0);
    }
}

proof fn lemma_trim_back_at(s: Seq<u8>, b: int)
    requires
        0 <= b <= s.len(),
        forall|k: int| b <= k < s.len() ==> is_space(s[k]),
        b > 0 ==> !is_space(s[b - 1]),
    ensures
        trim_back(s) =~= s.subrange(0, b),
    decreases s.len(),
{
    if s.len() > 0 && is_space(s.last()) {
        assert(b < s.len());
        lemma_trim_back_at(s.drop_last(), b);
        assert(s.drop_last().subrange(0, b) =~= s.subrange(0, b));
    } else {
        assert(b == s.len());
    }
}

/// Find the first position of `b`, or the length if it does not occur.
fn find_byte(s: &[u8], from: usize, b: u8) -> (r: usize)
    requires
        from <= s@.len(),
    ensures
        from <= r <= s@.len(),
        forall|k: int| from <= k < r ==> s@[k] != b,
        r < s@.len() ==> s@[r as int] == b,
{
    let n: usize = s.len();
    let mut i: usize = from;
    while i < n
        invariant
            from <= i <= n,
            n == s@.len(),
            forall|k: int| from <= k < i ==> s@[k] != b,
        decreases n - i,
    {
        if *vstd::slice::slice_index_get(s, i) == b {
            return i;
        }
        i = i + 1;
    }
    n
}

/// Is the byte ASCII whitespace?
fn space_byte(c: u8) -> (r: bool)
    ensures
        r == is_space(c),
{
    c == 32 || c == 9 || c == 13
}

/// Parse one line of a sector-range list.
pub fn parse_range_line(line: &[u8]) -> (r: RangeLine)
    ensures
        r == spec_parse_range_line(line@),
{
    // Strip the comment, trimming only when one was there.
    let h = find_byte(line, 0, HASH);
    let has_hash = h < line.len();
    let (mut lo, mut hi): (usize, usize) = (0, line.len());
    if has_hash {
        hi = h;
        while lo < hi && space_byte(*vstd::slice::slice_index_get(line, lo))
            invariant
                hi == h,
                0 <= lo <= hi,
                h <= line@.len(),
                forall|k: int| 0 <= k < lo ==> is_space(line@[k]),
            decreases hi - lo,
        {
            lo = lo + 1;
        }
        while hi > lo && space_byte(*vstd::slice::slice_index_get(line, hi - 1))
            invariant
                lo <= hi <= h,
                h <= line@.len(),
                forall|k: int| 0 <= k < lo ==> is_space(line@[k]),
                lo == h || !is_space(line@[lo as int]),
                forall|k: int| hi <= k < h ==> is_space(line@[k]),
            decreases hi,
        {
            hi = hi - 1;
        }
    }
    let sp = vstd::slice::slice_subrange(line, lo, hi);
    proof {
        lemma_before_byte_at(line@, HASH, h as int);
        if has_hash {
            let cut = line@.subrange(0, h as int);
            assert(forall|k: int| 0 <= k < h ==> cut[k] == #[trigger] line@[k]);
            lemma_trim_front_at(cut, lo as int);
            let front = cut.subrange(lo as int, h as int);
            assert(forall|k: int|
                0 <= k < front.len() ==> front[k] == #[trigger] line@[k + lo]);
            lemma_trim_back_at(front, hi - lo);
            assert(front.subrange(0, hi - lo) =~= line@.subrange(lo as int, hi as int));
        }
        assert(sp@ =~= stripped_line(line@));
    }
    if sp.len() == 0 {
        return RangeLine::Blank;
    }
    let s1 = find_byte(sp, 0, SEMI);
    if s1 == sp.len() {
        proof {
            lemma_before_byte_at(sp@, SEMI, s1 as int);
        }
        return RangeLine::Invalid;
    }
    let s2 = find_byte(sp, s1 + 1, SEMI);
    let fa = vstd::slice::slice_subrange(sp, 0, s1);
    let fb = vstd::slice::slice_subrange(sp, s1 + 1, s2);
    proof {
        lemma_before_byte_at(sp@, SEMI, s1 as int);
        let rest = sp@.skip(s1 as int + 1);
        assert(forall|k: int|
            0 <= k < rest.len() ==> rest[k] == #[trigger] sp@[k + s1 + 1]);
        lemma_before_byte_at(rest, SEMI, s2 as int - s1 - 1);
        assert(rest.subrange(0, s2 as int - s1 - 1) =~= sp@.subrange(s1 as int + 1, s2 as int));
        assert(fa@ =~= first_field(sp@));
        assert(fb@ =~= second_field(sp@));
    }
    match (parse_u64_dec(fa), parse_u64_dec(fb)) {
        (Some(a), Some(b)) => RangeLine::Range(a, b),
        _ => RangeLine::Invalid,
    }
}

} // verus!
