//! Byte-level text utilities: line splitting, comment stripping,
//! whitespace trimming and decimal digit parsing.
//!
//! Source text is modelled as a sequence of bytes. All positions are
//! expressed as indices into that sequence, so the specification functions
//! recurse over an index instead of slicing the sequence itself.

use vstd::prelude::*;

verus! {

/// Whitespace that may surround an instruction: space, tab, carriage return.
pub open spec fn is_space(b: u8) -> bool {
    b == 32 || b == 9 || b == 13
}

/// A decimal digit `0` ..= `9`.
pub open spec fn is_digit(b: u8) -> bool {
    48 <= b && b <= 57
}

/// Every byte of `s` from position `from` on is a decimal digit.
pub open spec fn all_digits(s: Seq<u8>, from: int) -> bool {
    forall|j: int| from <= j < s.len() ==> is_digit(s[j])
}

/// First position at or after `from` where byte `b` occurs in `s`,
/// or `s.len()` if it occurs nowhere there.
pub open spec fn find_pos(s: Seq<u8>, b: u8, from: int) -> int
    decreases s.len() - from,
{
    if from < 0 || from >= s.len() {
        s.len() as int
    } else if s[from] == b {
        from
    } else {
        find_pos(s, b, from + 1)
    }
}

pub proof fn lemma_find_pos(s: Seq<u8>, b: u8, from: int)
    requires
        0 <= from <= s.len(),
    ensures
        from <= find_pos(s, b, from) <= s.len(),
        find_pos(s, b, from) < s.len() ==> s[find_pos(s, b, from)] == b,
        forall|j: int| from <= j < find_pos(s, b, from) ==> s[j] != b,
    decreases s.len() - from,
{
    if from < s.len() && s[from] != b {
        lemma_find_pos(s, b, from + 1);
    }
}

/// First position at or after `from` where the line-comment marker `//`
/// (two consecutive slashes) begins, or `s.len()` if there is none.
pub open spec fn comment_pos(s: Seq<u8>, from: int) -> int
    decreases s.len() - from,
{
    if from < 0 || from + 1 >= s.len() {
        s.len() as int
    } else if s[from] == 47 && s[from + 1] == 47 {
        from
    } else {
        comment_pos(s, from + 1)
    }
}

pub proof fn lemma_comment_pos(s: Seq<u8>, from: int)
    requires
        0 <= from <= s.len(),
    ensures
        from <= comment_pos(s, from) <= s.len(),
    decreases s.len() - from,
{
    if from + 1 < s.len() && !(s[from] == 47 && s[from + 1] == 47) {
        lemma_comment_pos(s, from + 1);
    }
}

/// First position at or after `from` holding a non-space byte,
/// or `s.len()` if only spaces remain.
pub open spec fn skip_spaces(s: Seq<u8>, from: int) -> int
    decreases s.len() - from,
{
    if from < 0 || from >= s.len() {
        s.len() as int
    } else if is_space(s[from]) {
        skip_spaces(s, from + 1)
    } else {
        from
    }
}

/// Position just after the last non-space byte of `s` strictly before
/// `upto`, or `0` if all those bytes are spaces.
pub open spec fn trim_end_pos(s: Seq<u8>, upto: int) -> int
    decreases upto,
{
    if upto <= 0 {
        0
    } else if is_space(s[upto - 1]) {
        trim_end_pos(s, upto - 1)
    } else {
        upto
    }
}

/// `s` with leading and trailing whitespace removed.
pub open spec fn trimmed(s: Seq<u8>) -> Seq<u8> {
    let a = skip_spaces(s, 0);
    let b = trim_end_pos(s, s.len() as int);
    if a < b {
        s.subrange(a, b)
    } else {
        Seq::empty()
    }
}

/// A raw source line after normalization: the text before any `//`
/// comment marker, with surrounding whitespace removed.
pub open spec fn cleaned(l: Seq<u8>) -> Seq<u8> {
    trimmed(l.subrange(0, comment_pos(l, 0)))
}

/// The lines of `s`, split at newline bytes. A trailing newline does not
/// produce an extra empty line.
pub open spec fn split_lines(s: Seq<u8>, from: int) -> Seq<Seq<u8>>
    decreases s.len() - from + 1,
    via split_lines_decreases
{
    if from < 0 || from >= s.len() {
        Seq::empty()
    } else {
        let j = find_pos(s, 10, from);
        seq![s.subrange(from, j)] + split_lines(s, j + 1)
    }
}

#[via_fn]
proof fn split_lines_decreases(s: Seq<u8>, from: int) {
    if 0 <= from < s.len() {
        lemma_find_pos(s, 10, from);
    }
}

/// Numeric value of the decimal digits of `s` in positions
/// `from ..= upto - 1`, most significant digit first.
pub open spec fn digits_val(s: Seq<u8>, from: int, upto: int) -> nat
    decreases upto - from,
{
    if upto <= from {
        0
    } else {
        digits_val(s, from, upto - 1) * 10 + (if is_digit(s[upto - 1]) {
            (s[upto - 1] - 48) as nat
        } else {
            0
        })
    }
}

/// A longer digit run never has a smaller value: appending digits can only
/// grow the encoded number.
pub proof fn lemma_digits_val_mono(s: Seq<u8>, from: int, i: int, j: int)
    requires
        i <= j,
    ensures
        digits_val(s, from, i) <= digits_val(s, from, j),
    decreases j - i,
{
    if i < j {
        lemma_digits_val_mono(s, from, i, j - 1);
        assert(digits_val(s, from, j - 1) * 10 >= digits_val(s, from, j - 1)) by (nonlinear_arith);
    }
}

pub(crate) fn byte_is_space(b: u8) -> (r: bool)
    ensures
        r == is_space(b),
{
    b == 32 || b == 9 || b == 13
}

pub(crate) fn byte_is_digit(b: u8) -> (r: bool)
    ensures
        r == is_digit(b),
{
    48 <= b && b <= 57
}

/// The bytes of `v` in positions `a ..= b - 1`, as a fresh vector.
pub(crate) fn copy_range(v: &Vec<u8>, a: usize, b: usize) -> (r: Vec<u8>)
    requires
        a <= b <= v.len(),
    ensures
        r@ == v@.subrange(a as int, b as int),
{
    let mut r: Vec<u8> = Vec::new();
    let mut i: usize = a;
    while i < b
        invariant
            a <= i <= b <= v.len(),
            r@ == v@.subrange(a as int, i as int),
        decreases b - i,
    {
        r.push(v[i]);
        assert(v@.subrange(a as int, (i + 1) as int) == v@.subrange(a as int, i as int).push(
            v@[i as int],
        ));
        i = i + 1;
    }
    r
}

pub(crate) fn find_byte(v: &Vec<u8>, b: u8, from: usize) -> (r: usize)
    requires
        from <= v.len(),
    ensures
        r == find_pos(v@, b, from as int),
        from <= r <= v.len(),
        r < v.len() ==> v@[r as int] == b,
{
    proof {
        lemma_find_pos(v@, b, from as int);
    }
    let mut i: usize = from;
    while i < v.len()
        invariant
            from <= i <= v.len(),
            find_pos(v@, b, from as int) == find_pos(v@, b, i as int),
        decreases v.len() - i,
    {
        if v[i] == b {
            return i;
        }
        i = i + 1;
    }
    i
}

pub(crate) fn find_comment(v: &Vec<u8>) -> (r: usize)
    ensures
        r == comment_pos(v@, 0),
        r <= v.len(),
{
    proof {
        lemma_comment_pos(v@, 0);
    }
    if v.len() < 2 {
        return v.len();
    }
    let mut i: usize = 0;
    while i + 1 < v.len()
        invariant
            i + 1 <= v.len(),
            comment_pos(v@, 0) == comment_pos(v@, i as int),
        decreases v.len() - i,
    {
        if v[i] == 47 && v[i + 1] == 47 {
            return i;
        }
        i = i + 1;
    }
    v.len()
}

/// Strip any `//` comment and surrounding whitespace from one raw line.
pub fn clean_line(v: &Vec<u8>) -> (r: Vec<u8>)
    ensures
        r@ == cleaned(v@),
{
    let cp = find_comment(v);
    let head = copy_range(v, 0, cp);
    let mut a: usize = 0;
    while a < head.len() && byte_is_space(head[a])
        invariant
            0 <= a <= head.len(),
            skip_spaces(head@, 0) == skip_spaces(head@, a as int),
        decreases head.len() - a,
    {
        a = a + 1;
    }
    let mut b: usize = head.len();
    while b > 0 && byte_is_space(head[b - 1])
        invariant
            0 <= b <= head.len(),
            trim_end_pos(head@, head.len() as int) == trim_end_pos(head@, b as int),
        decreases b,
    {
        b = b - 1;
    }
    if a < b {
        copy_range(&head, a, b)
    } else {
        Vec::new()
    }
}

/// The views of a sequence of byte vectors, element by element.
pub open spec fn views(v: Seq<Vec<u8>>) -> Seq<Seq<u8>> {
    Seq::new(v.len(), |i: int| v[i]@)
}

/// Split raw source text into its physical lines.
pub fn split_source(src: &Vec<u8>) -> (lines: Vec<Vec<u8>>)
    requires
        src@.len() < usize::MAX,
    ensures
        views(lines@) == split_lines(src@, 0),
{
    let mut lines: Vec<Vec<u8>> = Vec::new();
    let mut pos: usize = 0;
    while pos < src.len()
        invariant
            src@.len() < usize::MAX,
            pos <= src.len() + 1,
            split_lines(src@, 0) == views(lines@) + split_lines(src@, pos as int),
        decreases src.len() + 1 - pos,
    {
        let j = find_byte(src, 10, pos);
        let line = copy_range(src, pos, j);
        let ghost old_lines = views(lines@);
        lines.push(line);
        proof {
            assert(views(lines@) =~= old_lines.push(line@));
            assert(old_lines.push(line@) + split_lines(src@, j + 1) =~= old_lines + (seq![line@]
                + split_lines(src@, j + 1)));
        }
        pos = j + 1;
    }
    proof {
        assert(split_lines(src@, pos as int) =~= Seq::<Seq<u8>>::empty());
        assert(views(lines@) + Seq::<Seq<u8>>::empty() =~= views(lines@));
    }
    lines
}

/// Value of the decimal digit run starting at `from`, capped at the 15-bit
/// address range: `None` exactly when the encoded number exceeds `32767`.
pub(crate) fn digits_value(v: &Vec<u8>, from: usize) -> (r: Option<u16>)
    requires
        from <= v.len(),
        all_digits(v@, from as int),
    ensures
        match r {
            Some(a) => a == digits_val(v@, from as int, v@.len() as int) && a <= 32767,
            None => digits_val(v@, from as int, v@.len() as int) > 32767,
        },
{
    let mut acc: u16 = 0;
    let mut i: usize = from;
    while i < v.len()
        invariant
            from <= i <= v.len(),
            all_digits(v@, from as int),
            acc == digits_val(v@, from as int, i as int),
            acc <= 32767,
        decreases v.len() - i,
    {
        let d = v[i];
        assert(is_digit(d));
        let step: u32 = (acc as u32) * 10 + ((d - 48) as u32);
        proof {
            assert(step == digits_val(v@, from as int, (i + 1) as int));
        }
        if step > 32767 {
            proof {
                lemma_digits_val_mono(v@, from as int, (i + 1) as int, v@.len() as int);
            }
            return None;
        }
        acc = step as u16;
        i = i + 1;
    }
    Some(acc)
}

/// Whether position `from` starts a non-empty run of decimal digits that
/// reaches the end of `v`.
pub(crate) fn digits_to_end(v: &Vec<u8>, from: usize) -> (r: bool)
    requires
        from <= v.len(),
    ensures
        r == (from < v@.len() && all_digits(v@, from as int)),
{
    if from == v.len() {
        return false;
    }
    let mut i: usize = from;
    while i < v.len()
        invariant
            from <= i <= v.len(),
            forall|j: int| from <= j < i ==> is_digit(v@[j]),
        decreases v.len() - i,
    {
        if !byte_is_digit(v[i]) {
            return false;
        }
        i = i + 1;
    }
    true
}

pub(crate) fn eq1(v: &Vec<u8>, a0: u8) -> (r: bool)
    ensures
        r == (v@ == seq![a0]),
{
    let r = v.len() == 1 && v[0] == a0;
    proof {
        if r {
            assert(v@ =~= seq![a0]);
        } else if v@ == seq![a0] {
            assert(v@.len() == 1 && v@[0] == a0);
        }
    }
    r
}

pub(crate) fn eq2(v: &Vec<u8>, a0: u8, a1: u8) -> (r: bool)
    ensures
        r == (v@ == seq![a0, a1]),
{
    let r = v.len() == 2 && v[0] == a0 && v[1] == a1;
    proof {
        if r {
            assert(v@ =~= seq![a0, a1]);
        } else if v@ == seq![a0, a1] {
            assert(v@.len() == 2 && v@[0] == a0 && v@[1] == a1);
        }
    }
    r
}

pub(crate) fn eq3(v: &Vec<u8>, a0: u8, a1: u8, a2: u8) -> (r: bool)
    ensures
        r == (v@ == seq![a0, a1, a2]),
{
    let r = v.len() == 3 && v[0] == a0 && v[1] == a1 && v[2] == a2;
    proof {
        if r {
            assert(v@ =~= seq![a0, a1, a2]);
        } else if v@ == seq![a0, a1, a2] {
            assert(v@.len() == 3 && v@[0] == a0 && v@[1] == a1 && v@[2] == a2);
        }
    }
    r
}

pub(crate) fn eq4(v: &Vec<u8>, a0: u8, a1: u8, a2: u8, a3: u8) -> (r: bool)
    ensures
        r == (v@ == seq![a0, a1, a2, a3]),
{
    let r = v.len() == 4 && v[0] == a0 && v[1] == a1 && v[2] == a2 && v[3] == a3;
    proof {
        if r {
            assert(v@ =~= seq![a0, a1, a2, a3]);
        } else if v@ == seq![a0, a1, a2, a3] {
            assert(v@.len() == 4 && v@[0] == a0 && v@[1] == a1 && v@[2] == a2 && v@[3] == a3);
        }
    }
    r
}

pub(crate) fn eq6(v: &Vec<u8>, a0: u8, a1: u8, a2: u8, a3: u8, a4: u8, a5: u8) -> (r: bool)
    ensures
        r == (v@ == seq![a0, a1, a2, a3, a4, a5]),
{
    let r = v.len() == 6 && v[0] == a0 && v[1] == a1 && v[2] == a2 && v[3] == a3 && v[4] == a4
        && v[5] == a5;
    proof {
        if r {
            assert(v@ =~= seq![a0, a1, a2, a3, a4, a5]);
        } else if v@ == seq![a0, a1, a2, a3, a4, a5] {
            assert(v@.len() == 6 && v@[0] == a0 && v@[1] == a1 && v@[2] == a2 && v@[3] == a3
                && v@[4] == a4 && v@[5] == a5);
        }
    }
    r
}

/// Byte-for-byte equality of two byte vectors.
pub(crate) fn bytes_eq(a: &Vec<u8>, b: &Vec<u8>) -> (r: bool)
    ensures
        r == (a@ == b@),
{
    if a.len() != b.len() {
        return false;
    }
    let mut i: usize = 0;
    while i < a.len()
        invariant
            a.len() == b.len(),
            0 <= i <= a.len(),
            forall|j: int| 0 <= j < i ==> a@[j] == b@[j],
        decreases a.len() - i,
    {
        if a[i] != b[i] {
            return false;
        }
        i = i + 1;
    }
    proof {
        assert(a@ =~= b@);
    }
    true
}

} // verus!
