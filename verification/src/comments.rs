//! The comment stripper: removes unescaped `%...` comments, one run per
//! input text, before expansion.
//!
//! A `%` starts a comment unless an odd backslash run stands before it; an
//! escaped `%` is emitted literally with the escaping backslash dropped.
//! Comment content through the end of the line is discarded; the terminating
//! newline is kept unless it is itself escaped; horizontal whitespace right
//! before the `%` and the indentation of the following line are discarded.

use vstd::prelude::*;

use crate::scan::{
    bs_run_at, char_string, lemma_bs_run_at_bound, lemma_ws_run_at_bound, push_char, repeat_ch,
    repeat_backslashes, backslash_run_end, ws_run_end, ws_run_at,
};

verus! {

/// The text with comments removed, scanning outside any comment.
pub open spec fn strip_comments(s: Seq<char>) -> Seq<char>
    decreases s.len(), 0int,
{
    if s.len() == 0 {
        Seq::empty()
    } else if s[0] == '\\' {
        let k = bs_run_at(s, 0) as int;
        proof {
            lemma_bs_run_at_bound(s, 0);
        }
        if k == s.len() {
            s
        } else if s[k] == '%' {
            if k % 2 == 1 {
                repeat_ch('\\', (k - 1) as nat) + seq!['%'] + strip_comments(s.skip(k + 1))
            } else {
                repeat_ch('\\', k as nat) + drop_comment(s.skip(k + 1))
            }
        } else {
            repeat_ch('\\', k as nat) + strip_comments(s.skip(k))
        }
    } else if s[0] == ' ' || s[0] == '\t' {
        let w = ws_run_at(s, 0) as int;
        proof {
            lemma_ws_run_at_bound(s, 0);
        }
        if w < s.len() && s[w] == '%' {
            drop_comment(s.skip(w + 1))
        } else {
            s.take(w) + strip_comments(s.skip(w))
        }
    } else if s[0] == '%' {
        drop_comment(s.skip(1))
    } else {
        seq![s[0]] + strip_comments(s.skip(1))
    }
}

/// The rest of the output while inside a comment: content is discarded up to
/// the end of the line; the newline is kept unless escaped.
pub open spec fn drop_comment(s: Seq<char>) -> Seq<char>
    decreases s.len(), 0int,
{
    if s.len() == 0 {
        Seq::empty()
    } else if s[0] == '\\' {
        let k = bs_run_at(s, 0) as int;
        proof {
            lemma_bs_run_at_bound(s, 0);
        }
        if k == s.len() {
            Seq::empty()
        } else if s[k] == '\n' {
            if k % 2 == 1 {
                resume_line(s.skip(k + 1))
            } else {
                seq!['\n'] + resume_line(s.skip(k + 1))
            }
        } else {
            drop_comment(s.skip(k))
        }
    } else if s[0] == '\n' {
        seq!['\n'] + resume_line(s.skip(1))
    } else {
        drop_comment(s.skip(1))
    }
}

/// The rest of the output on the line after a comment: leading horizontal
/// whitespace is discarded, then ordinary scanning resumes.
pub open spec fn resume_line(s: Seq<char>) -> Seq<char>
    decreases s.len(), 1int,
{
    if s.len() == 0 {
        Seq::empty()
    } else if s[0] == ' ' || s[0] == '\t' {
        resume_line(s.skip(1))
    } else {
        strip_comments(s)
    }
}

/// Removes comments from one raw input text.
pub fn process_comments(input: &str) -> (r: String)
    ensures
        r@ == strip_comments(input@),
{
    strip_exec(input)
}

fn strip_exec(s: &str) -> (r: String)
    ensures
        r@ == strip_comments(s@),
    decreases s@.len(), 0int,
{
    let n = s.unicode_len();
    if n == 0 {
        return String::new();
    }
    let c0 = s.get_char(0);
    if c0 == '\\' {
        let k = backslash_run_end(s, 0);
        if k == n {
            return s.to_owned();
        }
        let d = s.get_char(k);
        if d == '%' {
            if k % 2 == 1 {
                let mut out = repeat_backslashes(k - 1);
                push_char(&mut out, '%');
                let rest = strip_exec(s.substring_char(k + 1, n));
                out.append(rest.as_str());
                proof {
                    assert(s@.skip(k + 1) =~= s@.subrange(k + 1, n as int));
                    assert(out@ =~= strip_comments(s@));
                }
                out
            } else {
                let mut out = repeat_backslashes(k);
                let rest = comment_exec(s.substring_char(k + 1, n));
                out.append(rest.as_str());
                proof {
                    assert(s@.skip(k + 1) =~= s@.subrange(k + 1, n as int));
                    assert(out@ =~= strip_comments(s@));
                }
                out
            }
        } else {
            let mut out = repeat_backslashes(k);
            let rest = strip_exec(s.substring_char(k, n));
            out.append(rest.as_str());
            proof {
                assert(s@.skip(k as int) =~= s@.subrange(k as int, n as int));
                assert(out@ =~= strip_comments(s@));
            }
            out
        }
    } else if c0 == ' ' || c0 == '\t' {
        let w = ws_run_end(s, 0);
        if w < n && s.get_char(w) == '%' {
            let r = comment_exec(s.substring_char(w + 1, n));
            proof {
                assert(s@.skip(w + 1) =~= s@.subrange(w + 1, n as int));
            }
            r
        } else {
            let mut out = s.substring_char(0, w).to_owned();
            let rest = strip_exec(s.substring_char(w, n));
            out.append(rest.as_str());
            proof {
                assert(s@.skip(w as int) =~= s@.subrange(w as int, n as int));
                assert(s@.take(w as int) =~= s@.subrange(0, w as int));
                assert(out@ =~= strip_comments(s@));
            }
            out
        }
    } else if c0 == '%' {
        let r = comment_exec(s.substring_char(1, n));
        proof {
            assert(s@.skip(1) =~= s@.subrange(1, n as int));
        }
        r
    } else {
        let mut out = char_string(c0);
        let rest = strip_exec(s.substring_char(1, n));
        out.append(rest.as_str());
        proof {
            assert(s@.skip(1) =~= s@.subrange(1, n as int));
            assert(out@ =~= strip_comments(s@));
        }
        out
    }
}

fn comment_exec(s: &str) -> (r: String)
    ensures
        r@ == drop_comment(s@),
    decreases s@.len(), 0int,
{
    let n = s.unicode_len();
    if n == 0 {
        return String::new();
    }
    let c0 = s.get_char(0);
    if c0 == '\\' {
        let k = backslash_run_end(s, 0);
        if k == n {
            return String::new();
        }
        let d = s.get_char(k);
        if d == '\n' {
            if k % 2 == 1 {
                let r = resume_exec(s.substring_char(k + 1, n));
                proof {
                    assert(s@.skip(k + 1) =~= s@.subrange(k + 1, n as int));
                }
                r
            } else {
                let mut out = char_string('\n');
                let rest = resume_exec(s.substring_char(k + 1, n));
                out.append(rest.as_str());
                proof {
                    assert(s@.skip(k + 1) =~= s@.subrange(k + 1, n as int));
                    assert(out@ =~= drop_comment(s@));
                }
                out
            }
        } else {
            let r = comment_exec(s.substring_char(k, n));
            proof {
                assert(s@.skip(k as int) =~= s@.subrange(k as int, n as int));
            }
            r
        }
    } else if c0 == '\n' {
        let mut out = char_string('\n');
        let rest = resume_exec(s.substring_char(1, n));
        out.append(rest.as_str());
        proof {
            assert(s@.skip(1) =~= s@.subrange(1, n as int));
            assert(out@ =~= drop_comment(s@));
        }
        out
    } else {
        let r = comment_exec(s.substring_char(1, n));
        proof {
            assert(s@.skip(1) =~= s@.subrange(1, n as int));
        }
        r
    }
}

fn resume_exec(s: &str) -> (r: String)
    ensures
        r@ == resume_line(s@),
    decreases s@.len(), 1int,
{
    let n = s.unicode_len();
    if n == 0 {
        return String::new();
    }
    let c0 = s.get_char(0);
    if c0 == ' ' || c0 == '\t' {
        let r = resume_exec(s.substring_char(1, n));
        proof {
            assert(s@.skip(1) =~= s@.subrange(1, n as int));
        }
        r
    } else {
        strip_exec(s)
    }
}

} // verus!
