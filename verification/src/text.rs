//! Building and comparing text.

use vstd::prelude::*;
use vstd::string::StrSliceExecFns;
use crate::model::{digit_char, digits, decimal, text_le};

verus! {

/// `String::push` appends one character to the end of the string.
pub assume_specification[ String::push ](s: &mut String, c: char)
    ensures
        final(s)@ == old(s)@.push(c),
;

/// Equality of string slices is equality of their characters.
pub assume_specification[ <str as PartialEq>::eq ](a: &str, b: &str) -> (r: bool)
    ensures
        r == (a@ == b@),
;

fn digit_of(d: u64) -> (c: char)
    requires
        d < 10,
    ensures
        c == digit_char(d as int),
{
    if d == 0 {
        '0'
    } else if d == 1 {
        '1'
    } else if d == 2 {
        '2'
    } else if d == 3 {
        '3'
    } else if d == 4 {
        '4'
    } else if d == 5 {
        '5'
    } else if d == 6 {
        '6'
    } else if d == 7 {
        '7'
    } else if d == 8 {
        '8'
    } else {
        '9'
    }
}

/// The characters of `rev` from the last to the first.
spec fn backwards(rev: Seq<char>) -> Seq<char> {
    Seq::new(rev.len(), |j: int| rev[rev.len() - 1 - j])
}

/// Appends the decimal text of `n` to `out`.
pub fn push_decimal(out: &mut String, n: i64)
    ensures
        final(out)@ == old(out)@ + decimal(n as int),
{
    let magnitude: u64 = if n < 0 {
        (0 - (n as i128)) as u64
    } else {
        n as u64
    };
    if n < 0 {
        out.push('-');
    }
    let ghost start = out@;
    let mut rev: Vec<char> = Vec::new();
    let mut m: u64 = magnitude;
    while m >= 10
        invariant
            digits(magnitude as nat) =~= digits(m as nat) + backwards(rev@),
        decreases m,
    {
        let ghost before = rev@;
        rev.push(digit_of(m % 10));
        proof {
            assert(backwards(rev@) =~= seq![digit_char((m % 10) as int)] + backwards(before));
        }
        m = m / 10;
    }
    rev.push(digit_of(m));
    assert(digits(magnitude as nat) =~= backwards(rev@));
    let mut k: usize = rev.len();
    while k > 0
        invariant
            k <= rev.len(),
            out@ =~= start + backwards(rev@).subrange(0, rev.len() - k),
        decreases k,
    {
        k = k - 1;
        out.push(rev[k]);
    }
    assert(backwards(rev@).subrange(0, rev.len() as int) =~= backwards(rev@));
}

/// Whether `a` comes before `b` or equals it, in the order of dictionaries.
pub fn text_at_most(a: &str, b: &str) -> (r: bool)
    ensures
        r == text_le(a@, b@, 0),
{
    let n: usize = a.unicode_len();
    let m: usize = b.unicode_len();
    let mut k: usize = 0;
    while k < n
        invariant
            n == a@.len(),
            m == b@.len(),
            k <= n,
            text_le(a@, b@, 0) == text_le(a@, b@, k as nat),
        decreases n - k,
    {
        if k >= m {
            return false;
        }
        let x: char = a.get_char(k);
        let y: char = b.get_char(k);
        if x < y {
            return true;
        }
        if y < x {
            return false;
        }
        k = k + 1;
    }
    true
}

/// Of two texts, one comes before the other or equals it.
pub(crate) proof fn lemma_text_le_total(a: Seq<char>, b: Seq<char>, from: nat)
    requires
        !text_le(a, b, from),
    ensures
        text_le(b, a, from),
    decreases a.len() - from,
{
    if from < a.len() && from < b.len() && a[from as int] == b[from as int] {
        lemma_text_le_total(a, b, from + 1);
    }
}

/// What stands at each position after one more element has been put in.
pub(crate) proof fn lemma_insert_at<A>(s: Seq<A>, p: int, x: A)
    requires
        0 <= p <= s.len(),
    ensures
        s.insert(p, x).len() == s.len() + 1,
        forall|j: int| 0 <= j < p ==> #[trigger] s.insert(p, x)[j] == s[j],
        s.insert(p, x)[p] == x,
        forall|j: int| p < j <= s.len() ==> #[trigger] s.insert(p, x)[j] == s[j - 1],
{
}

} // verus!
