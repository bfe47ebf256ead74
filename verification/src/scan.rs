//! Character classification and the shared escape-parity primitives.
//!
//! Every pass of the pipeline (comment stripping, brace matching, argument
//! substitution, expansion, normalization) accounts for runs of consecutive
//! backslashes with the functions of this module, so that all passes agree on
//! which characters are escaped.

use vstd::prelude::*;

verus! {

/// Whether a character counts as alphanumeric; the meaning of
/// `char::is_alphanumeric` of std, left abstract here.
pub uninterp spec fn is_alnum(c: char) -> bool;

/// Relies on `char::is_alphanumeric` of std: true exactly for characters in
/// the Unicode classes Alphabetic, Nd, Nl and No. The result depends on the
/// character alone.
pub assume_specification[ char::is_alphanumeric ](c: char) -> (r: bool)
    ensures
        r == is_alnum(c),
;

/// Relies on `String::push` of std: appends one character at the end of the
/// string.
#[verifier::external_body]
pub(crate) fn push_char(s: &mut String, c: char)
    ensures
        final(s)@ == old(s)@ + seq![c],
{
    s.push(c);
}

/// Length of the run of consecutive backslashes starting at `i`.
pub open spec fn bs_run_at(s: Seq<char>, i: int) -> nat
    decreases s.len() - i
        when 0 <= i
{
    if i < s.len() && s[i] == '\\' {
        1 + bs_run_at(s, i + 1)
    } else {
        0
    }
}

/// Length of the run of consecutive spaces and tabs starting at `i`.
pub open spec fn ws_run_at(s: Seq<char>, i: int) -> nat
    decreases s.len() - i
        when 0 <= i
{
    if i < s.len() && (s[i] == ' ' || s[i] == '\t') {
        1 + ws_run_at(s, i + 1)
    } else {
        0
    }
}

/// Length of the run of consecutive alphanumeric characters starting at `i`.
pub open spec fn alnum_run_at(s: Seq<char>, i: int) -> nat
    decreases s.len() - i
        when 0 <= i
{
    if i < s.len() && is_alnum(s[i]) {
        1 + alnum_run_at(s, i + 1)
    } else {
        0
    }
}

/// Number of consecutive backslashes standing directly before position `i`.
pub open spec fn bs_before(s: Seq<char>, i: int) -> nat
    decreases i
        when i <= s.len()
{
    if 0 < i <= s.len() && s[i - 1] == '\\' {
        1 + bs_before(s, i - 1)
    } else {
        0
    }
}

/// The one escaping rule of the whole pipeline: the character at `i` is
/// escaped when an odd number of consecutive backslashes stands before it.
pub open spec fn is_escaped(s: Seq<char>, i: int) -> bool {
    bs_before(s, i) % 2 == 1
}

/// A run ends no later than the end of the text.
pub proof fn lemma_bs_run_at_bound(s: Seq<char>, i: int)
    requires
        0 <= i <= s.len(),
    ensures
        i + bs_run_at(s, i) <= s.len(),
    decreases s.len() - i,
{
    if i < s.len() && s[i] == '\\' {
        lemma_bs_run_at_bound(s, i + 1);
    }
}

pub proof fn lemma_ws_run_at_bound(s: Seq<char>, i: int)
    requires
        0 <= i <= s.len(),
    ensures
        i + ws_run_at(s, i) <= s.len(),
    decreases s.len() - i,
{
    if i < s.len() && (s[i] == ' ' || s[i] == '\t') {
        lemma_ws_run_at_bound(s, i + 1);
    }
}

pub proof fn lemma_alnum_run_at_bound(s: Seq<char>, i: int)
    requires
        0 <= i <= s.len(),
    ensures
        i + alnum_run_at(s, i) <= s.len(),
    decreases s.len() - i,
{
    if i < s.len() && is_alnum(s[i]) {
        lemma_alnum_run_at_bound(s, i + 1);
    }
}

/// There are no more backslashes before a position than the position itself.
pub proof fn lemma_bs_before_bound(s: Seq<char>, i: int)
    requires
        0 <= i <= s.len(),
    ensures
        bs_before(s, i) <= i,
    decreases i,
{
    if 0 < i && s[i - 1] == '\\' {
        lemma_bs_before_bound(s, i - 1);
    }
}

/// End position of the backslash run starting at `from`.
pub(crate) fn backslash_run_end(s: &str, from: usize) -> (r: usize)
    requires
        from <= s@.len(),
    ensures
        r == from + bs_run_at(s@, from as int),
        from <= r <= s@.len(),
{
    let n = s.unicode_len();
    let mut j = from;
    while j < n && s.get_char(j) == '\\'
        invariant
            from <= j <= n,
            n == s@.len(),
            from + bs_run_at(s@, from as int) == j + bs_run_at(s@, j as int),
        decreases n - j,
    {
        j = j + 1;
    }
    j
}

/// End position of the space-and-tab run starting at `from`.
pub(crate) fn ws_run_end(s: &str, from: usize) -> (r: usize)
    requires
        from <= s@.len(),
    ensures
        r == from + ws_run_at(s@, from as int),
        from <= r <= s@.len(),
{
    let n = s.unicode_len();
    let mut j = from;
    while j < n && (s.get_char(j) == ' ' || s.get_char(j) == '\t')
        invariant
            from <= j <= n,
            n == s@.len(),
            from + ws_run_at(s@, from as int) == j + ws_run_at(s@, j as int),
        decreases n - j,
    {
        j = j + 1;
    }
    j
}

/// End position of the alphanumeric run starting at `from`.
pub(crate) fn alnum_run_end(s: &str, from: usize) -> (r: usize)
    requires
        from <= s@.len(),
    ensures
        r == from + alnum_run_at(s@, from as int),
        from <= r <= s@.len(),
{
    let n = s.unicode_len();
    let mut j = from;
    while j < n && s.get_char(j).is_alphanumeric()
        invariant
            from <= j <= n,
            n == s@.len(),
            from + alnum_run_at(s@, from as int) == j + alnum_run_at(s@, j as int),
        decreases n - j,
    {
        j = j + 1;
    }
    j
}

/// Number of consecutive backslashes standing directly before position `i`.
pub(crate) fn backslashes_before(s: &str, i: usize) -> (r: usize)
    requires
        i <= s@.len(),
    ensures
        r == bs_before(s@, i as int),
        r <= i,
{
    let mut k = i;
    while k > 0 && s.get_char(k - 1) == '\\'
        invariant
            k <= i <= s@.len(),
            bs_before(s@, i as int) == (i - k) + bs_before(s@, k as int),
        decreases k,
    {
        k = k - 1;
    }
    i - k
}

/// A sequence of `n` copies of the character `c`.
pub open spec fn repeat_ch(c: char, n: nat) -> Seq<char> {
    Seq::new(n, |k: int| c)
}

/// A string of `n` backslashes.
pub(crate) fn repeat_backslashes(n: usize) -> (r: String)
    ensures
        r@ == repeat_ch('\\', n as nat),
{
    let mut out = String::new();
    let mut i: usize = 0;
    while i < n
        invariant
            i <= n,
            out@ == repeat_ch('\\', i as nat),
        decreases n - i,
    {
        push_char(&mut out, '\\');
        i = i + 1;
        proof {
            assert(out@ =~= repeat_ch('\\', i as nat));
        }
    }
    out
}

/// A string of the one character `c`.
pub(crate) fn char_string(c: char) -> (r: String)
    ensures
        r@ == seq![c],
{
    let mut out = String::new();
    push_char(&mut out, c);
    proof {
        assert(out@ =~= seq![c]);
    }
    out
}

/// Whether two string slices hold the same characters.
pub(crate) fn str_eq(a: &str, b: &str) -> (r: bool)
    ensures
        r == (a@ == b@),
{
    let n = a.unicode_len();
    let m = b.unicode_len();
    if n != m {
        return false;
    }
    let mut i: usize = 0;
    while i < n
        invariant
            i <= n,
            n == a@.len(),
            n == b@.len(),
            forall|k: int| 0 <= k < i ==> a@[k] == b@[k],
        decreases n - i,
    {
        if a.get_char(i) != b.get_char(i) {
            return false;
        }
        i = i + 1;
    }
    proof {
        assert(a@ =~= b@);
    }
    true
}

} // verus!
