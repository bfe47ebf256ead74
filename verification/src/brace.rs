//! The brace matcher: finds the closing brace that balances an opener.
//!
//! A brace is structurally significant unless it is escaped, that is,
//! directly preceded by an odd run of backslashes ([`crate::scan::is_escaped`],
//! the one escaping rule shared with every other pass). Escaped braces are
//! literal content and never count toward balance.

use vstd::prelude::*;

use crate::scan::{backslashes_before, bs_before, is_escaped, lemma_bs_before_bound};

verus! {

/// Result of scanning from `j` with `depth` groups already open: the position
/// of the closer that brings the count back to zero, or `None` when the
/// braces never balance or closers exceed openers.
pub open spec fn match_from(s: Seq<char>, j: int, depth: int) -> Option<int>
    decreases s.len() - j
        when 0 <= j
{
    if j >= s.len() {
        Option::None
    } else if s[j] == '{' && !is_escaped(s, j) {
        match_from(s, j + 1, depth + 1)
    } else if s[j] == '}' && !is_escaped(s, j) {
        if depth <= 0 {
            Option::None
        } else if depth == 1 {
            Option::Some(j)
        } else {
            match_from(s, j + 1, depth - 1)
        }
    } else {
        match_from(s, j + 1, depth)
    }
}

/// Position of the structural closing brace balancing the opener at `i`, or
/// `None` when no such closer exists.
pub open spec fn find_match_end(s: Seq<char>, i: int) -> Option<int> {
    match_from(s, i, 0)
}

/// A found closer lies between the start of the scan and the end of the text.
pub proof fn lemma_match_from_bounds(s: Seq<char>, j: int, depth: int)
    requires
        0 <= j,
    ensures
        match match_from(s, j, depth) {
            Option::Some(e) => j <= e < s.len(),
            Option::None => true,
        },
    decreases s.len() - j,
{
    if j < s.len() {
        lemma_match_from_bounds(s, j + 1, depth + 1);
        lemma_match_from_bounds(s, j + 1, depth - 1);
        lemma_match_from_bounds(s, j + 1, depth);
    }
}

/// Whether a balanced group starts at `index`: some structural closer brings
/// the count of the structural braces from `index` on back to zero, without
/// the closers ever exceeding the openers.
pub fn is_brace_balanced(s: &str, index: usize) -> (r: bool)
    ensures
        r == (find_match_end(s@, index as int) is Some),
{
    let n = s.unicode_len();
    let e = brace_balance_end(s, index);
    proof {
        lemma_match_from_bounds(s@, index as int, 0);
        assert(s@.len() == n <= usize::MAX);
    }
    e != usize::MAX
}

/// Position of the closing brace balancing the opener at `index`;
/// `usize::MAX` is the not-found sentinel, distinct from any valid position.
pub fn brace_balance_end(s: &str, index: usize) -> (r: usize)
    ensures
        match find_match_end(s@, index as int) {
            Option::Some(e) => r == e && r < s@.len(),
            Option::None => r == usize::MAX,
        },
{
    let n = s.unicode_len();
    if index >= n {
        return usize::MAX;
    }
    let mut run = backslashes_before(s, index);
    let mut depth: usize = 0;
    let mut j = index;
    while j < n
        invariant
            index <= j <= n,
            n == s@.len(),
            run == bs_before(s@, j as int),
            depth <= j,
            find_match_end(s@, index as int) == match_from(s@, j as int, depth as int),
        decreases n - j,
    {
        let c = s.get_char(j);
        let structural = run % 2 == 0;
        if c == '{' && structural {
            depth = depth + 1;
        } else if c == '}' && structural {
            if depth == 0 {
                return usize::MAX;
            } else if depth == 1 {
                return j;
            }
            depth = depth - 1;
        }
        proof {
            lemma_bs_before_bound(s@, j as int);
        }
        if c == '\\' {
            run = run + 1;
        } else {
            run = 0;
        }
        j = j + 1;
    }
    usize::MAX
}

} // verus!
