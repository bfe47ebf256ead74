//! The escape normalizer: one final pass that collapses the backslash runs
//! left over after expansion into their literal meaning.
//!
//! After a run of `n` backslashes: a following `#`, `%`, `{` or `}` absorbs
//! the run and is emitted once; a following alphanumeric collapses the run
//! pairwise (odd runs keep one pending backslash and rescan); any other
//! character keeps a single escaping backslash; a trailing run is emitted
//! as it stands.

use vstd::prelude::*;

use crate::scan::{
    backslash_run_end, bs_run_at, char_string, is_alnum, lemma_bs_run_at_bound, push_char,
    repeat_backslashes, repeat_ch,
};

verus! {

/// The normalized form of a fully expanded text.
pub open spec fn normalize(s: Seq<char>) -> Seq<char>
    decreases s.len(),
{
    if s.len() == 0 {
        Seq::empty()
    } else if s[0] != '\\' {
        seq![s[0]] + normalize(s.skip(1))
    } else {
        let k = bs_run_at(s, 0) as int;
        proof {
            lemma_bs_run_at_bound(s, 0);
        }
        if k == s.len() {
            s
        } else {
            let d = s[k];
            if d == '#' || d == '%' || d == '{' || d == '}' {
                seq![d] + normalize(s.skip(k + 1))
            } else if is_alnum(d) {
                if k % 2 == 1 {
                    repeat_ch('\\', (k / 2 + 1) as nat) + normalize(s.skip(k))
                } else {
                    repeat_ch('\\', (k / 2) as nat) + seq![d] + normalize(s.skip(k + 1))
                }
            } else {
                seq!['\\', d] + normalize(s.skip(k + 1))
            }
        }
    }
}

/// Collapses leftover backslash runs of an expanded text.
pub fn process_backslashes(input: &str) -> (r: String)
    ensures
        r@ == normalize(input@),
    decreases input@.len(),
{
    let s = input;
    let n = s.unicode_len();
    if n == 0 {
        return String::new();
    }
    let c0 = s.get_char(0);
    if c0 != '\\' {
        let mut out = char_string(c0);
        let rest = process_backslashes(s.substring_char(1, n));
        out.append(rest.as_str());
        proof {
            assert(s@.skip(1) =~= s@.subrange(1, n as int));
            assert(out@ =~= normalize(s@));
        }
        out
    } else {
        let k = backslash_run_end(s, 0);
        if k == n {
            return s.to_owned();
        }
        let d = s.get_char(k);
        if d == '#' || d == '%' || d == '{' || d == '}' {
            let mut out = char_string(d);
            let rest = process_backslashes(s.substring_char(k + 1, n));
            out.append(rest.as_str());
            proof {
                assert(s@.skip(k + 1) =~= s@.subrange(k + 1, n as int));
                assert(out@ =~= normalize(s@));
            }
            out
        } else if d.is_alphanumeric() {
            if k % 2 == 1 {
                let mut out = repeat_backslashes(k / 2 + 1);
                let rest = process_backslashes(s.substring_char(k, n));
                out.append(rest.as_str());
                proof {
                    assert(s@.skip(k as int) =~= s@.subrange(k as int, n as int));
                    assert(out@ =~= normalize(s@));
                }
                out
            } else {
                let mut out = repeat_backslashes(k / 2);
                push_char(&mut out, d);
                let rest = process_backslashes(s.substring_char(k + 1, n));
                out.append(rest.as_str());
                proof {
                    assert(s@.skip(k + 1) =~= s@.subrange(k + 1, n as int));
                    assert(out@ =~= normalize(s@));
                }
                out
            }
        } else {
            let mut out = char_string('\\');
            push_char(&mut out, d);
            let rest = process_backslashes(s.substring_char(k + 1, n));
            out.append(rest.as_str());
            proof {
                assert(s@.skip(k + 1) =~= s@.subrange(k + 1, n as int));
                assert(out@ =~= normalize(s@));
            }
            out
        }
    }
}

/// A text whose backslash runs directly before an alphanumeric character all
/// have length at most two. Longer such runs lose one backslash per pass, so
/// only on tame texts is one normalization pass final.
pub open spec fn tame(s: Seq<char>) -> bool
    decreases s.len(),
{
    if s.len() == 0 {
        true
    } else if s[0] != '\\' {
        tame(s.skip(1))
    } else {
        let k = bs_run_at(s, 0) as int;
        proof {
            lemma_bs_run_at_bound(s, 0);
        }
        if k == s.len() {
            true
        } else if is_alnum(s[k]) {
            k <= 2 && tame(s.skip(k + 1))
        } else {
            tame(s.skip(k + 1))
        }
    }
}

/// A text the normalizer maps to itself: every backslash run is either
/// trailing, or a single backslash before a character that does not absorb
/// it.
pub open spec fn settled(s: Seq<char>) -> bool
    decreases s.len(),
{
    if s.len() == 0 {
        true
    } else if s[0] != '\\' {
        settled(s.skip(1))
    } else {
        let k = bs_run_at(s, 0) as int;
        proof {
            lemma_bs_run_at_bound(s, 0);
        }
        if k == s.len() {
            true
        } else {
            let d = s[k];
            !(d == '#' || d == '%' || d == '{' || d == '}') && k == 1 && settled(s.skip(2))
        }
    }
}

/// The run at the head of a maximal backslash run stops at a non-backslash.
proof fn lemma_bs_run_stops(s: Seq<char>, i: int)
    requires
        0 <= i <= s.len(),
    ensures
        i + bs_run_at(s, i) == s.len() || s[i + bs_run_at(s, i)] != '\\',
    decreases s.len() - i,
{
    if i < s.len() && s[i] == '\\' {
        lemma_bs_run_stops(s, i + 1);
    }
}

/// A character other than a backslash in front of a settled text leaves it
/// settled.
proof fn lemma_settled_cons(c: char, t: Seq<char>)
    requires
        c != '\\',
        settled(t),
    ensures
        settled(seq![c] + t),
{
    let u = seq![c] + t;
    assert(u.skip(1) =~= t);
}

/// A single backslash and a non-absorbing character in front of a settled
/// text leave it settled.
proof fn lemma_settled_cons_escape(d: char, t: Seq<char>)
    requires
        d != '\\',
        d != '#',
        d != '%',
        d != '{',
        d != '}',
        settled(t),
    ensures
        settled(seq!['\\', d] + t),
{
    let u = seq!['\\', d] + t;
    assert(bs_run_at(u, 1) == 0);
    assert(bs_run_at(u, 0) == 1);
    assert(u.skip(2) =~= t);
}

/// The normalizer does nothing to a settled text.
proof fn lemma_settled_normalize(s: Seq<char>)
    requires
        settled(s),
    ensures
        normalize(s) == s,
    decreases s.len(),
{
    if s.len() == 0 {
    } else if s[0] != '\\' {
        lemma_settled_normalize(s.skip(1));
        assert(normalize(s) =~= s);
    } else {
        let k = bs_run_at(s, 0) as int;
        lemma_bs_run_at_bound(s, 0);
        if k == s.len() {
        } else {
            let d = s[k];
            assert(k == 1);
            lemma_bs_run_stops(s, 0);
            assert(d != '\\');
            if is_alnum(d) {
                lemma_settled_normalize(s.skip(2));
                assert(s.skip(1)[0] == d);
                assert(s.skip(1).skip(1) =~= s.skip(2));
                assert(normalize(s.skip(1)) == seq![d] + normalize(s.skip(2)));
                assert(normalize(s) == repeat_ch('\\', 1) + (seq![d] + s.skip(2)));
                assert(normalize(s) =~= s);
            } else {
                lemma_settled_normalize(s.skip(2));
                assert(normalize(s) =~= s);
            }
        }
    }
}

/// One pass over a tame text leaves a settled text.
proof fn lemma_normalize_settles(s: Seq<char>)
    requires
        tame(s),
    ensures
        settled(normalize(s)),
    decreases s.len(),
{
    if s.len() == 0 {
    } else if s[0] != '\\' {
        lemma_normalize_settles(s.skip(1));
        lemma_settled_cons(s[0], normalize(s.skip(1)));
    } else {
        let k = bs_run_at(s, 0) as int;
        lemma_bs_run_at_bound(s, 0);
        lemma_bs_run_stops(s, 0);
        if k == s.len() {
            assert(settled(s));
        } else {
            let d = s[k];
            assert(d != '\\');
            if d == '#' || d == '%' || d == '{' || d == '}' {
                lemma_normalize_settles(s.skip(k + 1));
                lemma_settled_cons(d, normalize(s.skip(k + 1)));
            } else if is_alnum(d) {
                if k == 1 {
                    lemma_normalize_settles(s.skip(2));
                    assert(s.skip(1)[0] == d);
                    assert(s.skip(1).skip(1) =~= s.skip(2));
                    assert(normalize(s.skip(1)) == seq![d] + normalize(s.skip(2)));
                    lemma_settled_cons_escape(d, normalize(s.skip(2)));
                    assert(repeat_ch('\\', 1) + (seq![d] + normalize(s.skip(2))) =~= seq!['\\', d]
                        + normalize(s.skip(2)));
                } else {
                    assert(k == 2);
                    lemma_normalize_settles(s.skip(3));
                    lemma_settled_cons_escape(d, normalize(s.skip(3)));
                    assert(repeat_ch('\\', 1) + seq![d] + normalize(s.skip(3)) =~= seq!['\\', d]
                        + normalize(s.skip(3)));
                }
            } else {
                lemma_normalize_settles(s.skip(k + 1));
                lemma_settled_cons_escape(d, normalize(s.skip(k + 1)));
            }
        }
    }
}

/// Normalization is idempotent: a second pass returns the first pass's
/// output unchanged. This holds of every text whose backslash runs directly
/// before an alphanumeric character have length at most two — in particular
/// of expansion output, which collapses longer runs — and fails on others:
/// three backslashes before a letter lose one backslash in each pass.
pub proof fn lemma_normalize_idempotent(s: Seq<char>)
    requires
        tame(s),
    ensures
        normalize(normalize(s)) == normalize(s),
{
    lemma_normalize_settles(s);
    lemma_settled_normalize(normalize(s));
}

} // verus!
