//! Turning raw classifier output into a type label.
//!
//! The external classifier answers with a line such as `text/plain\n`. A
//! label is that answer with surrounding ASCII whitespace stripped and every
//! `/` replaced by `_`, so the label can serve as the name of a single
//! directory.

use vstd::prelude::*;

verus! {

/// The bytes stripped from the ends of classifier output: ASCII whitespace.
pub open spec fn is_ws(b: u8) -> bool {
    b == 9 || b == 10 || b == 11 || b == 12 || b == 13 || b == 32
}

/// The sequence with its leading ASCII whitespace removed.
pub open spec fn trim_start_spec(s: Seq<u8>) -> Seq<u8>
    decreases s.len(),
{
    if s.len() > 0 && is_ws(s[0]) {
        trim_start_spec(s.skip(1))
    } else {
        s
    }
}

/// The sequence with its trailing ASCII whitespace removed.
pub open spec fn trim_end_spec(s: Seq<u8>) -> Seq<u8>
    decreases s.len(),
{
    if s.len() > 0 && is_ws(s[s.len() - 1]) {
        trim_end_spec(s.take(s.len() - 1))
    } else {
        s
    }
}

/// The sequence with ASCII whitespace removed from both ends.
pub open spec fn trim_spec(s: Seq<u8>) -> Seq<u8> {
    trim_end_spec(trim_start_spec(s))
}

/// Every `/` (byte 47) replaced by `_` (byte 95); all other bytes unchanged.
pub open spec fn underscore_slashes(s: Seq<u8>) -> Seq<u8> {
    Seq::new(s.len(), |i: int| if s[i] == 47 { 95u8 } else { s[i] })
}

/// The type label derived from raw classifier output: trimmed, then made
/// separator-free.
pub open spec fn sanitize_spec(s: Seq<u8>) -> Seq<u8> {
    underscore_slashes(trim_spec(s))
}

proof fn lemma_trim_start_at(s: Seq<u8>, i: int)
    requires
        0 <= i <= s.len(),
        forall|k: int| 0 <= k < i ==> is_ws(s[k]),
        i == s.len() || !is_ws(s[i]),
    ensures
        trim_start_spec(s) == s.skip(i),
    decreases i,
{
    if i == 0 {
        assert(s.skip(0) =~= s);
    } else {
        assert(is_ws(s[0]));
        assert(forall|k: int| 0 <= k < i - 1 ==> #[trigger] is_ws(s.skip(1)[k]));
        lemma_trim_start_at(s.skip(1), i - 1);
        assert(s.skip(1).skip(i - 1) =~= s.skip(i));
    }
}

proof fn lemma_trim_end_at(s: Seq<u8>, j: int)
    requires
        0 <= j <= s.len(),
        forall|k: int| j <= k < s.len() ==> is_ws(s[k]),
        j == 0 || !is_ws(s[j - 1]),
    ensures
        trim_end_spec(s) == s.take(j),
    decreases s.len() - j,
{
    if j == s.len() {
        assert(s.take(j) =~= s);
    } else {
        assert(is_ws(s[s.len() - 1]));
        assert(forall|k: int| j <= k < s.len() - 1 ==> #[trigger] is_ws(s.take(s.len() - 1)[k]));
        lemma_trim_end_at(s.take(s.len() - 1), j);
        assert(s.take(s.len() - 1).take(j) =~= s.take(j));
    }
}

/// Clean raw classifier output into a type label: strip ASCII whitespace
/// from both ends and replace every `/` by `_`.
pub fn sanitize_label(raw: &Vec<u8>) -> (label: Vec<u8>)
    ensures
        label@ == sanitize_spec(raw@),
{
    let n = raw.len();
    let mut lo: usize = 0;
    while lo < n && (raw[lo] == 9 || raw[lo] == 10 || raw[lo] == 11 || raw[lo] == 12
        || raw[lo] == 13 || raw[lo] == 32)
        invariant
            lo <= n,
            n == raw.len(),
            forall|k: int| 0 <= k < lo ==> is_ws(raw@[k]),
        decreases n - lo,
    {
        lo += 1;
    }
    let mut hi: usize = n;
    while hi > lo && (raw[hi - 1] == 9 || raw[hi - 1] == 10 || raw[hi - 1] == 11
        || raw[hi - 1] == 12 || raw[hi - 1] == 13 || raw[hi - 1] == 32)
        invariant
            lo <= hi <= n,
            n == raw.len(),
            forall|k: int| hi <= k < n ==> is_ws(raw@[k]),
        decreases hi,
    {
        hi -= 1;
    }
    proof {
        lemma_trim_start_at(raw@, lo as int);
        assert(forall|k: int| hi - lo <= k < raw@.skip(lo as int).len()
            ==> #[trigger] is_ws(raw@.skip(lo as int)[k]));
        lemma_trim_end_at(raw@.skip(lo as int), hi - lo);
        assert(raw@.skip(lo as int).take(hi - lo) =~= raw@.subrange(lo as int, hi as int));
    }
    let mut label: Vec<u8> = Vec::new();
    let mut k: usize = lo;
    while k < hi
        invariant
            lo <= k <= hi <= n,
            n == raw.len(),
            trim_spec(raw@) == raw@.subrange(lo as int, hi as int),
            label@ == underscore_slashes(raw@.subrange(lo as int, hi as int)).take(k - lo),
        decreases hi - k,
    {
        let b = raw[k];
        if b == 47 {
            label.push(95);
        } else {
            label.push(b);
        }
        proof {
            assert(label@ =~= underscore_slashes(raw@.subrange(lo as int, hi as int)).take(
                k + 1 - lo));
        }
        k += 1;
    }
    proof {
        assert(label@ =~= sanitize_spec(raw@));
    }
    label
}

/// Law: label cleaning is collision-free with path separators — for any
/// classifier output, the resulting label never contains a `/` byte, so it is
/// always safe as a single path segment.
pub proof fn lemma_sanitize_no_separator(s: Seq<u8>)
    ensures
        forall|i: int| 0 <= i < sanitize_spec(s).len() ==> sanitize_spec(s)[i] != 47,
{
}

proof fn lemma_trim_start_no_leading_ws(s: Seq<u8>)
    ensures
        trim_start_spec(s).len() == 0 || !is_ws(trim_start_spec(s)[0]),
    decreases s.len(),
{
    if s.len() > 0 && is_ws(s[0]) {
        lemma_trim_start_no_leading_ws(s.skip(1));
    }
}

proof fn lemma_trim_end_no_trailing_ws(s: Seq<u8>)
    ensures
        trim_end_spec(s).len() == 0 || !is_ws(trim_end_spec(s)[trim_end_spec(s).len() - 1]),
    decreases s.len(),
{
    if s.len() > 0 && is_ws(s[s.len() - 1]) {
        lemma_trim_end_no_trailing_ws(s.take(s.len() - 1));
    }
}

proof fn lemma_trim_end_is_prefix(s: Seq<u8>)
    ensures
        trim_end_spec(s).len() <= s.len(),
        trim_end_spec(s) == s.take(trim_end_spec(s).len() as int),
    decreases s.len(),
{
    if s.len() > 0 && is_ws(s[s.len() - 1]) {
        lemma_trim_end_is_prefix(s.take(s.len() - 1));
        assert(s.take(s.len() - 1).take(trim_end_spec(s).len() as int) =~= s.take(
            trim_end_spec(s).len() as int));
    } else {
        assert(s.take(s.len() as int) =~= s);
    }
}

proof fn lemma_trim_of_trimmed(s: Seq<u8>)
    requires
        s.len() == 0 || (!is_ws(s[0]) && !is_ws(s[s.len() - 1])),
    ensures
        trim_spec(s) == s,
{
}

/// Law: label cleaning is idempotent — cleaning an already-clean label
/// changes nothing, so a label may safely pass through the cleaner twice.
pub proof fn lemma_sanitize_idempotent(s: Seq<u8>)
    ensures
        sanitize_spec(sanitize_spec(s)) == sanitize_spec(s),
{
    let t = trim_spec(s);
    let u = underscore_slashes(t);
    lemma_trim_start_no_leading_ws(s);
    lemma_trim_end_no_trailing_ws(trim_start_spec(s));
    lemma_trim_end_is_prefix(trim_start_spec(s));
    assert(t.len() == 0 || (!is_ws(t[0]) && !is_ws(t[t.len() - 1])));
    assert(u.len() == 0 || (!is_ws(u[0]) && !is_ws(u[u.len() - 1])));
    lemma_trim_of_trimmed(u);
    assert(underscore_slashes(u) =~= u);
}

} // verus!
