//! The argument substitutor: replaces unescaped `#` placeholders in a macro
//! body with the supplied argument text, preserving escape parity.
//!
//! A `#` behind an even backslash run (including none) becomes the argument,
//! emitted verbatim with the run kept; behind an odd run it stays a literal
//! `#`, again with the whole run kept. Everything else passes through.

use vstd::prelude::*;

use crate::scan::{backslash_run_end, bs_run_at, char_string, lemma_bs_run_at_bound, push_char};

verus! {

/// The body with every unescaped `#` replaced by `arg`.
pub open spec fn substitute(body: Seq<char>, arg: Seq<char>) -> Seq<char>
    decreases body.len(),
{
    if body.len() == 0 {
        Seq::empty()
    } else if body[0] == '\\' {
        let k = bs_run_at(body, 0) as int;
        proof {
            lemma_bs_run_at_bound(body, 0);
        }
        if k == body.len() {
            body
        } else if body[k] == '#' {
            if k % 2 == 0 {
                body.take(k) + arg + substitute(body.skip(k + 1), arg)
            } else {
                body.take(k) + seq!['#'] + substitute(body.skip(k + 1), arg)
            }
        } else {
            body.take(k) + substitute(body.skip(k), arg)
        }
    } else if body[0] == '#' {
        arg + substitute(body.skip(1), arg)
    } else {
        seq![body[0]] + substitute(body.skip(1), arg)
    }
}

/// Substitutes `arg` for every unescaped `#` of `macro_value`.
pub fn replace_hash_with_arg(macro_value: &str, arg: &str) -> (r: String)
    ensures
        r@ == substitute(macro_value@, arg@),
    decreases macro_value@.len(),
{
    let s = macro_value;
    let n = s.unicode_len();
    if n == 0 {
        return String::new();
    }
    let c0 = s.get_char(0);
    if c0 == '\\' {
        let k = backslash_run_end(s, 0);
        if k == n {
            return s.to_owned();
        }
        let d = s.get_char(k);
        if d == '#' {
            let mut out = s.substring_char(0, k).to_owned();
            if k % 2 == 0 {
                out.append(arg);
            } else {
                push_char(&mut out, '#');
            }
            let rest = replace_hash_with_arg(s.substring_char(k + 1, n), arg);
            out.append(rest.as_str());
            proof {
                assert(s@.skip(k + 1) =~= s@.subrange(k + 1, n as int));
                assert(s@.take(k as int) =~= s@.subrange(0, k as int));
                assert(out@ =~= substitute(s@, arg@));
            }
            out
        } else {
            let mut out = s.substring_char(0, k).to_owned();
            let rest = replace_hash_with_arg(s.substring_char(k, n), arg);
            out.append(rest.as_str());
            proof {
                assert(s@.skip(k as int) =~= s@.subrange(k as int, n as int));
                assert(s@.take(k as int) =~= s@.subrange(0, k as int));
                assert(out@ =~= substitute(s@, arg@));
            }
            out
        }
    } else if c0 == '#' {
        let mut out = arg.to_owned();
        let rest = replace_hash_with_arg(s.substring_char(1, n), arg);
        out.append(rest.as_str());
        proof {
            assert(s@.skip(1) =~= s@.subrange(1, n as int));
            assert(out@ =~= substitute(s@, arg@));
        }
        out
    } else {
        let mut out = char_string(c0);
        let rest = replace_hash_with_arg(s.substring_char(1, n), arg);
        out.append(rest.as_str());
        proof {
            assert(s@.skip(1) =~= s@.subrange(1, n as int));
            assert(out@ =~= substitute(s@, arg@));
        }
        out
    }
}

} // verus!
