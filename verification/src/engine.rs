//! The expansion engine: scans a text left to right, copies ordinary
//! characters, and resolves one backslash directive per step.
//!
//! The whole behaviour is the specification function [`expand`]: ordinary
//! characters and resolved escapes are copied; a backslash before an
//! alphanumeric run dispatches on the run (`def`, `undef`, `if`, `ifdef`,
//! file inclusion, `expandafter`, else a user macro), parses its brace
//! groups, and continues on a spliced continuation text. Each splice costs
//! one unit of fuel, the defensive cap on nested expansions; plain scanning
//! and `\def`/`\undef`, which continue in the same text, cost none, though
//! dispatching any directive asks for fuel left.

use vstd::prelude::*;

use crate::brace::{brace_balance_end, find_match_end, lemma_match_from_bounds};
use crate::comments::{process_comments, strip_comments};
use crate::normalize::{normalize, process_backslashes};
use crate::errors::{ExpandErr, TexError};
use crate::files::{assoc_find, FileTable};
use crate::scan::{
    alnum_run_at, alnum_run_end, char_string, is_alnum, lemma_alnum_run_at_bound, str_eq,
};
use crate::subst::{replace_hash_with_arg, substitute};
use crate::table::{
    apply_def, apply_undef, find_macro_value, macro_exists, table_view, MacroNode,
};

verus! {

/// The keyword of the `\def` directive.
pub open spec fn kw_def() -> Seq<char> {
    seq!['d', 'e', 'f']
}

/// The keyword of the `\undef` directive.
pub open spec fn kw_undef() -> Seq<char> {
    seq!['u', 'n', 'd', 'e', 'f']
}

/// The keyword of the `\if` directive.
pub open spec fn kw_if() -> Seq<char> {
    seq!['i', 'f']
}

/// The keyword of the `\ifdef` directive.
pub open spec fn kw_ifdef() -> Seq<char> {
    seq!['i', 'f', 'd', 'e', 'f']
}

/// The keyword of the file-inclusion directive.
pub open spec fn kw_file() -> Seq<char> {
    seq!['i', 'n', 'c', 'l', 'u', 'd', 'e']
}

/// The keyword of the `\expandafter` directive.
pub open spec fn kw_expandafter() -> Seq<char> {
    seq!['e', 'x', 'p', 'a', 'n', 'd', 'a', 'f', 't', 'e', 'r']
}

/// No two directive keywords are the same run.
pub proof fn lemma_kw_distinct()
    ensures
        kw_def() != kw_undef(),
        kw_def() != kw_if(),
        kw_def() != kw_ifdef(),
        kw_def() != kw_file(),
        kw_def() != kw_expandafter(),
        kw_undef() != kw_if(),
        kw_undef() != kw_ifdef(),
        kw_undef() != kw_file(),
        kw_undef() != kw_expandafter(),
        kw_if() != kw_ifdef(),
        kw_if() != kw_file(),
        kw_if() != kw_expandafter(),
        kw_ifdef() != kw_file(),
        kw_ifdef() != kw_expandafter(),
        kw_file() != kw_expandafter(),
{
    assert(kw_def().len() == 3);
    assert(kw_undef().len() == 5);
    assert(kw_if().len() == 2);
    assert(kw_ifdef().len() == 5);
    assert(kw_file().len() == 7);
    assert(kw_expandafter().len() == 11);
    assert(kw_undef()[0] == 'u');
    assert(kw_ifdef()[0] == 'i');
}

/// A valid macro name: non-empty and alphanumeric throughout.
pub open spec fn valid_name(name: Seq<char>) -> bool {
    name.len() > 0 && (forall|k: int| 0 <= k < name.len() ==> is_alnum(#[trigger] name[k]))
}

/// A valid file path: only alphanumerics, `_`, `/`, `-` and `.`.
pub open spec fn valid_path(p: Seq<char>) -> bool {
    forall|k: int|
        0 <= k < p.len() ==> (is_alnum(#[trigger] p[k]) || p[k] == '_' || p[k] == '/' || p[k]
            == '-' || p[k] == '.')
}

/// One brace group expected at `i`: its content and the position after its
/// closer, or the error of a missing or unbalanced group.
pub open spec fn parse_group(s: Seq<char>, i: int) -> Result<(Seq<char>, int), ExpandErr> {
    if !(0 <= i < s.len()) || s[i] != '{' {
        Result::Err(ExpandErr::MissingGroup)
    } else {
        match find_match_end(s, i) {
            Option::None => Result::Err(ExpandErr::UnbalancedBraces),
            Option::Some(e) => Result::Ok((s.subrange(i + 1, e), e + 1)),
        }
    }
}

/// A found group ends after its opener and within the text.
pub proof fn lemma_parse_group_bounds(s: Seq<char>, i: int)
    ensures
        match parse_group(s, i) {
            Result::Ok((g, j)) => i < j <= s.len(),
            Result::Err(e) => true,
        },
{
    if 0 <= i < s.len() && s[i] == '{' {
        lemma_match_from_bounds(s, i, 0);
    }
}

/// Prefixes `c` onto the output of an expansion outcome.
pub open spec fn prepend_out(
    c: Seq<char>,
    r: Result<(Seq<char>, Map<Seq<char>, Seq<char>>), ExpandErr>,
) -> Result<(Seq<char>, Map<Seq<char>, Seq<char>>), ExpandErr> {
    match r {
        Result::Ok((o, t)) => Result::Ok((c + o, t)),
        Result::Err(e) => Result::Err(e),
    }
}

/// The meaning of expansion from position `i` of `s` under the macro table
/// `tbl` and the available file texts `files`: the produced text and the
/// table as it stands at the end, or the first fatal error. `fuel` bounds
/// the number of continuation splices.
pub open spec fn expand(
    s: Seq<char>,
    i: int,
    tbl: Map<Seq<char>, Seq<char>>,
    files: Seq<(Seq<char>, Seq<char>)>,
    fuel: nat,
) -> Result<(Seq<char>, Map<Seq<char>, Seq<char>>), ExpandErr>
    decreases fuel, s.len() - i,
        when 0 <= i
{
    if i >= s.len() {
        Result::Ok((Seq::empty(), tbl))
    } else if s[i] != '\\' {
        prepend_out(seq![s[i]], expand(s, i + 1, tbl, files, fuel))
    } else if i + 1 >= s.len() {
        // a lone trailing backslash is dropped
        Result::Ok((Seq::empty(), tbl))
    } else {
        let c = s[i + 1];
        if c == '\\' || c == '{' || c == '}' || c == '#' {
            prepend_out(seq![c], expand(s, i + 2, tbl, files, fuel))
        } else if !is_alnum(c) {
            prepend_out(seq!['\\', c], expand(s, i + 2, tbl, files, fuel))
        } else if fuel == 0 {
            Result::Err(ExpandErr::RecursionLimit)
        } else {
            let k = alnum_run_at(s, i + 1) as int;
            let run = s.subrange(i + 1, i + 1 + k);
            let a = i + 1 + k;
            proof {
                lemma_alnum_run_at_bound(s, i + 1);
                lemma_parse_group_bounds(s, a);
                let r1 = parse_group(s, a);
                if r1 is Ok {
                    lemma_parse_group_bounds(s, r1->Ok_0.1);
                }
            }
            if run == kw_def() {
                match parse_group(s, a) {
                    Result::Err(e) => Result::Err(e),
                    Result::Ok((name, j1)) => if !valid_name(name) {
                        Result::Err(ExpandErr::EmptyOrInvalidName)
                    } else {
                        match parse_group(s, j1) {
                            Result::Err(e) => Result::Err(e),
                            Result::Ok((body, j2)) => if tbl.contains_key(name) {
                                Result::Err(ExpandErr::DuplicateMacro)
                            } else {
                                expand(s, j2, tbl.insert(name, body), files, fuel)
                            },
                        }
                    },
                }
            } else if run == kw_undef() {
                match parse_group(s, a) {
                    Result::Err(e) => Result::Err(e),
                    Result::Ok((name, j1)) => if !tbl.contains_key(name) {
                        Result::Err(ExpandErr::UnknownMacro)
                    } else {
                        expand(s, j1, tbl.remove(name), files, fuel)
                    },
                }
            } else if run == kw_if() {
                match parse_group(s, a) {
                    Result::Err(e) => Result::Err(e),
                    Result::Ok((cond, j1)) => match parse_group(s, j1) {
                        Result::Err(e) => Result::Err(e),
                        Result::Ok((thn, j2)) => match parse_group(s, j2) {
                            Result::Err(e) => Result::Err(e),
                            Result::Ok((els, j3)) => {
                                let chosen = if cond.len() > 0 {
                                    thn
                                } else {
                                    els
                                };
                                expand(chosen + s.skip(j3), 0, tbl, files, (fuel - 1) as nat)
                            },
                        },
                    },
                }
            } else if run == kw_ifdef() {
                match parse_group(s, a) {
                    Result::Err(e) => Result::Err(e),
                    Result::Ok((name, j1)) => match parse_group(s, j1) {
                        Result::Err(e) => Result::Err(e),
                        Result::Ok((thn, j2)) => match parse_group(s, j2) {
                            Result::Err(e) => Result::Err(e),
                            Result::Ok((els, j3)) => {
                                let chosen = if tbl.contains_key(name) {
                                    thn
                                } else {
                                    els
                                };
                                expand(chosen + s.skip(j3), 0, tbl, files, (fuel - 1) as nat)
                            },
                        },
                    },
                }
            } else if run == kw_file() {
                match parse_group(s, a) {
                    Result::Err(e) => Result::Err(e),
                    Result::Ok((p, j1)) => if !valid_path(p) {
                        Result::Err(ExpandErr::InvalidPath)
                    } else {
                        match assoc_find(files, p) {
                            Option::None => Result::Err(ExpandErr::FileNotFound(p)),
                            Option::Some(txt) => expand(
                                strip_comments(txt) + s.skip(j1),
                                0,
                                tbl,
                                files,
                                (fuel - 1) as nat,
                            ),
                        }
                    },
                }
            } else if run == kw_expandafter() {
                match parse_group(s, a) {
                    Result::Err(e) => Result::Err(e),
                    Result::Ok((before, j1)) => match parse_group(s, j1) {
                        Result::Err(e) => Result::Err(e),
                        Result::Ok((after, j2)) => match expand(
                            after,
                            0,
                            tbl,
                            files,
                            (fuel - 1) as nat,
                        ) {
                            Result::Err(e) => Result::Err(e),
                            Result::Ok((ob, tbl2)) => expand(
                                before + ob + s.skip(j2),
                                0,
                                tbl2,
                                files,
                                (fuel - 1) as nat,
                            ),
                        },
                    },
                }
            } else {
                // a user macro invocation
                if !tbl.contains_key(run) {
                    Result::Err(ExpandErr::UnknownMacro)
                } else {
                    match parse_group(s, a) {
                        Result::Err(e) => Result::Err(e),
                        Result::Ok((arg, j1)) => expand(
                            substitute(tbl[run], arg) + s.skip(j1),
                            0,
                            tbl,
                            files,
                            (fuel - 1) as nat,
                        ),
                    }
                }
            }
        }
    }
}

/// How an executable outcome `r`, reached with the table `tbl1`, realizes
/// the specification-level expansion from `(s, i, tbl0, files, fuel)`.
pub open spec fn expand_rel(
    s: Seq<char>,
    i: int,
    tbl0: Map<Seq<char>, Seq<char>>,
    files: Seq<(Seq<char>, Seq<char>)>,
    fuel: nat,
    r: Result<String, TexError>,
    tbl1: Map<Seq<char>, Seq<char>>,
) -> bool {
    match r {
        Result::Ok(out) => expand(s, i, tbl0, files, fuel) == Result::<
            (Seq<char>, Map<Seq<char>, Seq<char>>),
            ExpandErr,
        >::Ok((out@, tbl1)),
        Result::Err(e) => expand(s, i, tbl0, files, fuel) == Result::<
            (Seq<char>, Map<Seq<char>, Seq<char>>),
            ExpandErr,
        >::Err(e@),
    }
}

/// The scanning position stands on a backslash followed by an alphanumeric
/// run ending at `a`, with fuel left: a directive or macro call begins here.
pub open spec fn directive_frame(s: Seq<char>, i: int, a: int) -> bool {
    &&& 0 <= i
    &&& i + 1 < s.len()
    &&& s[i] == '\\'
    &&& is_alnum(s[i + 1])
    &&& !(s[i + 1] == '\\' || s[i + 1] == '{' || s[i + 1] == '}' || s[i + 1] == '#')
    &&& a == i + 1 + alnum_run_at(s, i + 1)
    &&& a <= s.len()
}

fn parse_group_exec(s: &str, i: usize) -> (r: Result<(String, usize), TexError>)
    requires
        i <= s@.len(),
    ensures
        match r {
            Result::Ok((g, j)) => parse_group(s@, i as int) == Result::<
                (Seq<char>, int),
                ExpandErr,
            >::Ok((g@, j as int)) && i < j <= s@.len(),
            Result::Err(e) => parse_group(s@, i as int) == Result::<
                (Seq<char>, int),
                ExpandErr,
            >::Err(e@),
        },
{
    let n = s.unicode_len();
    if i >= n || s.get_char(i) != '{' {
        return Result::Err(TexError::MissingGroup);
    }
    let e = brace_balance_end(s, i);
    if e == usize::MAX {
        proof {
            lemma_match_from_bounds(s@, i as int, 0);
        }
        return Result::Err(TexError::UnbalancedBraces);
    }
    proof {
        lemma_match_from_bounds(s@, i as int, 0);
        lemma_match_from_bounds(s@, i as int + 1, 0);
        lemma_match_from_bounds(s@, i as int + 1, 1);
        assert(i as int + 1 <= e < s@.len());
    }
    let g = s.substring_char(i + 1, e).to_owned();
    Result::Ok((g, e + 1))
}

fn valid_name_exec(s: &str) -> (r: bool)
    ensures
        r == valid_name(s@),
{
    let n = s.unicode_len();
    if n == 0 {
        return false;
    }
    let mut i: usize = 0;
    while i < n
        invariant
            i <= n,
            n == s@.len(),
            forall|k: int| 0 <= k < i ==> is_alnum(#[trigger] s@[k]),
        decreases n - i,
    {
        if !s.get_char(i).is_alphanumeric() {
            return false;
        }
        i = i + 1;
    }
    true
}

fn valid_path_exec(s: &str) -> (r: bool)
    ensures
        r == valid_path(s@),
{
    let n = s.unicode_len();
    let mut i: usize = 0;
    while i < n
        invariant
            i <= n,
            n == s@.len(),
            forall|k: int|
                0 <= k < i ==> (is_alnum(#[trigger] s@[k]) || s@[k] == '_' || s@[k] == '/'
                    || s@[k] == '-' || s@[k] == '.'),
        decreases n - i,
    {
        let c = s.get_char(i);
        if !(c.is_alphanumeric() || c == '_' || c == '/' || c == '-' || c == '.') {
            return false;
        }
        i = i + 1;
    }
    true
}

fn handle_def(
    input: &str,
    i: usize,
    a: usize,
    head: &mut Option<Box<MacroNode>>,
    files: &FileTable,
    fuel: u64,
) -> (r: Result<String, TexError>)
    requires
        directive_frame(input@, i as int, a as int),
        input@.subrange(i as int + 1, a as int) == kw_def(),
        fuel >= 1,
    ensures
        expand_rel(
            input@,
            i as int,
            table_view(*old(head)),
            files@,
            fuel as nat,
            r,
            table_view(*final(head)),
        ),
    decreases fuel, input@.len() - i, 0int,
{
    let ghost tbl0 = table_view(*head);
    let (name, j1) = match parse_group_exec(input, a) {
        Result::Err(e) => {
            return Result::Err(e);
        },
        Result::Ok(p) => p,
    };
    if !valid_name_exec(name.as_str()) {
        return Result::Err(TexError::EmptyOrInvalidName);
    }
    let (body, j2) = match parse_group_exec(input, j1) {
        Result::Err(e) => {
            return Result::Err(e);
        },
        Result::Ok(p) => p,
    };
    match apply_def(head, name.as_str(), body.as_str()) {
        Result::Err(e) => Result::Err(e),
        Result::Ok(_u) => process_at(input, j2, head, files, fuel),
    }
}

fn handle_undef(
    input: &str,
    i: usize,
    a: usize,
    head: &mut Option<Box<MacroNode>>,
    files: &FileTable,
    fuel: u64,
) -> (r: Result<String, TexError>)
    requires
        directive_frame(input@, i as int, a as int),
        input@.subrange(i as int + 1, a as int) == kw_undef(),
        fuel >= 1,
    ensures
        expand_rel(
            input@,
            i as int,
            table_view(*old(head)),
            files@,
            fuel as nat,
            r,
            table_view(*final(head)),
        ),
    decreases fuel, input@.len() - i, 0int,
{
    let (name, j1) = match parse_group_exec(input, a) {
        Result::Err(e) => {
            return Result::Err(e);
        },
        Result::Ok(p) => p,
    };
    match apply_undef(head, name.as_str()) {
        Result::Err(e) => Result::Err(e),
        Result::Ok(_u) => process_at(input, j1, head, files, fuel),
    }
}

fn handle_cond(
    input: &str,
    i: usize,
    a: usize,
    head: &mut Option<Box<MacroNode>>,
    files: &FileTable,
    fuel: u64,
    by_table: bool,
) -> (r: Result<String, TexError>)
    requires
        directive_frame(input@, i as int, a as int),
        !by_table ==> input@.subrange(i as int + 1, a as int) == kw_if(),
        by_table ==> input@.subrange(i as int + 1, a as int) == kw_ifdef(),
        fuel >= 1,
    ensures
        expand_rel(
            input@,
            i as int,
            table_view(*old(head)),
            files@,
            fuel as nat,
            r,
            table_view(*final(head)),
        ),
    decreases fuel, input@.len() - i, 0int,
{
    proof {
        lemma_kw_distinct();
    }
    let n = input.unicode_len();
    let (g1, j1) = match parse_group_exec(input, a) {
        Result::Err(e) => {
            return Result::Err(e);
        },
        Result::Ok(p) => p,
    };
    let (g2, j2) = match parse_group_exec(input, j1) {
        Result::Err(e) => {
            return Result::Err(e);
        },
        Result::Ok(p) => p,
    };
    let (g3, j3) = match parse_group_exec(input, j2) {
        Result::Err(e) => {
            return Result::Err(e);
        },
        Result::Ok(p) => p,
    };
    let cond_true = if by_table {
        macro_exists(head, g1.as_str())
    } else {
        !g1.as_str().is_empty()
    };
    let mut cont = if cond_true {
        g2
    } else {
        g3
    };
    cont.append(input.substring_char(j3, n));
    proof {
        assert(input@.skip(j3 as int) =~= input@.subrange(j3 as int, n as int));
    }
    process_at(cont.as_str(), 0, head, files, fuel - 1)
}

fn handle_expandafter(
    input: &str,
    i: usize,
    a: usize,
    head: &mut Option<Box<MacroNode>>,
    files: &FileTable,
    fuel: u64,
) -> (r: Result<String, TexError>)
    requires
        directive_frame(input@, i as int, a as int),
        input@.subrange(i as int + 1, a as int) == kw_expandafter(),
        fuel >= 1,
    ensures
        expand_rel(
            input@,
            i as int,
            table_view(*old(head)),
            files@,
            fuel as nat,
            r,
            table_view(*final(head)),
        ),
    decreases fuel, input@.len() - i, 0int,
{
    let n = input.unicode_len();
    let (g1, j1) = match parse_group_exec(input, a) {
        Result::Err(e) => {
            return Result::Err(e);
        },
        Result::Ok(p) => p,
    };
    let (g2, j2) = match parse_group_exec(input, j1) {
        Result::Err(e) => {
            return Result::Err(e);
        },
        Result::Ok(p) => p,
    };
    let ob = match process_at(g2.as_str(), 0, head, files, fuel - 1) {
        Result::Err(e) => {
            return Result::Err(e);
        },
        Result::Ok(o) => o,
    };
    let mut cont = g1;
    cont.append(ob.as_str());
    cont.append(input.substring_char(j2, n));
    proof {
        assert(input@.skip(j2 as int) =~= input@.subrange(j2 as int, n as int));
    }
    process_at(cont.as_str(), 0, head, files, fuel - 1)
}

fn handle_file_directive(
    input: &str,
    i: usize,
    a: usize,
    head: &mut Option<Box<MacroNode>>,
    files: &FileTable,
    fuel: u64,
) -> (r: Result<String, TexError>)
    requires
        directive_frame(input@, i as int, a as int),
        input@.subrange(i as int + 1, a as int) == kw_file(),
        fuel >= 1,
    ensures
        expand_rel(
            input@,
            i as int,
            table_view(*old(head)),
            files@,
            fuel as nat,
            r,
            table_view(*final(head)),
        ),
    decreases fuel, input@.len() - i, 0int,
{
    let n = input.unicode_len();
    let (p, j1) = match parse_group_exec(input, a) {
        Result::Err(e) => {
            return Result::Err(e);
        },
        Result::Ok(g) => g,
    };
    if !valid_path_exec(p.as_str()) {
        return Result::Err(TexError::InvalidPath);
    }
    let txt = match files.find_text(p.as_str()) {
        Option::None => {
            return Result::Err(TexError::FileNotFound(p));
        },
        Option::Some(t) => t,
    };
    let mut cont = process_comments(txt.as_str());
    cont.append(input.substring_char(j1, n));
    proof {
        assert(input@.skip(j1 as int) =~= input@.subrange(j1 as int, n as int));
    }
    process_at(cont.as_str(), 0, head, files, fuel - 1)
}

fn handle_invoke(
    input: &str,
    i: usize,
    a: usize,
    head: &mut Option<Box<MacroNode>>,
    files: &FileTable,
    fuel: u64,
) -> (r: Result<String, TexError>)
    requires
        directive_frame(input@, i as int, a as int),
        input@.subrange(i as int + 1, a as int) != kw_def(),
        input@.subrange(i as int + 1, a as int) != kw_undef(),
        input@.subrange(i as int + 1, a as int) != kw_if(),
        input@.subrange(i as int + 1, a as int) != kw_ifdef(),
        input@.subrange(i as int + 1, a as int) != kw_file(),
        input@.subrange(i as int + 1, a as int) != kw_expandafter(),
        fuel >= 1,
    ensures
        expand_rel(
            input@,
            i as int,
            table_view(*old(head)),
            files@,
            fuel as nat,
            r,
            table_view(*final(head)),
        ),
    decreases fuel, input@.len() - i, 0int,
{
    let n = input.unicode_len();
    let name = input.substring_char(i + 1, a);
    let body = match find_macro_value(head, name) {
        Option::None => {
            return Result::Err(TexError::UnknownMacro);
        },
        Option::Some(b) => b,
    };
    let (arg, j1) = match parse_group_exec(input, a) {
        Result::Err(e) => {
            return Result::Err(e);
        },
        Result::Ok(g) => g,
    };
    let mut cont = replace_hash_with_arg(body.as_str(), arg.as_str());
    cont.append(input.substring_char(j1, n));
    proof {
        assert(input@.skip(j1 as int) =~= input@.subrange(j1 as int, n as int));
    }
    process_at(cont.as_str(), 0, head, files, fuel - 1)
}

fn process_at(
    input: &str,
    i: usize,
    head: &mut Option<Box<MacroNode>>,
    files: &FileTable,
    fuel: u64,
) -> (r: Result<String, TexError>)
    requires
        i <= input@.len(),
    ensures
        expand_rel(
            input@,
            i as int,
            table_view(*old(head)),
            files@,
            fuel as nat,
            r,
            table_view(*final(head)),
        ),
    decreases fuel, input@.len() - i, 1int,
{
    let n = input.unicode_len();
    if i >= n {
        return Result::Ok(String::new());
    }
    let c = input.get_char(i);
    if c != '\\' {
        match process_at(input, i + 1, head, files, fuel) {
            Result::Err(e) => Result::Err(e),
            Result::Ok(rest) => {
                let mut out = char_string(c);
                out.append(rest.as_str());
                proof {
                    assert(out@ =~= seq![c] + rest@);
                }
                Result::Ok(out)
            },
        }
    } else if i + 1 >= n {
        Result::Ok(String::new())
    } else {
        let d = input.get_char(i + 1);
        if d == '\\' || d == '{' || d == '}' || d == '#' {
            match process_at(input, i + 2, head, files, fuel) {
                Result::Err(e) => Result::Err(e),
                Result::Ok(rest) => {
                    let mut out = char_string(d);
                    out.append(rest.as_str());
                    proof {
                        assert(out@ =~= seq![d] + rest@);
                    }
                    Result::Ok(out)
                },
            }
        } else if !d.is_alphanumeric() {
            match process_at(input, i + 2, head, files, fuel) {
                Result::Err(e) => Result::Err(e),
                Result::Ok(rest) => {
                    let mut out = char_string('\\');
                    crate::scan::push_char(&mut out, d);
                    out.append(rest.as_str());
                    proof {
                        assert(out@ =~= seq!['\\', d] + rest@);
                    }
                    Result::Ok(out)
                },
            }
        } else if fuel == 0 {
            Result::Err(TexError::RecursionLimit)
        } else {
            let a = alnum_run_end(input, i + 1);
            let run_str = input.substring_char(i + 1, a);
            let ghost run = input@.subrange(i as int + 1, a as int);
            proof {
                reveal_strlit("def");
                reveal_strlit("undef");
                reveal_strlit("if");
                reveal_strlit("ifdef");
                reveal_strlit("include");
                reveal_strlit("expandafter");
                assert("def"@ =~= kw_def());
                assert("undef"@ =~= kw_undef());
                assert("if"@ =~= kw_if());
                assert("ifdef"@ =~= kw_ifdef());
                assert("include"@ =~= kw_file());
                assert("expandafter"@ =~= kw_expandafter());
            }
            if str_eq(run_str, "def") {
                handle_def(input, i, a, head, files, fuel)
            } else if str_eq(run_str, "undef") {
                handle_undef(input, i, a, head, files, fuel)
            } else if str_eq(run_str, "if") {
                handle_cond(input, i, a, head, files, fuel, false)
            } else if str_eq(run_str, "ifdef") {
                handle_cond(input, i, a, head, files, fuel, true)
            } else if str_eq(run_str, "include") {
                handle_file_directive(input, i, a, head, files, fuel)
            } else if str_eq(run_str, "expandafter") {
                handle_expandafter(input, i, a, head, files, fuel)
            } else {
                handle_invoke(input, i, a, head, files, fuel)
            }
        }
    }
}

/// Expands one comment-stripped document under the given macro table and
/// available file texts. `fuel` caps the nesting of expansions; each `\if`,
/// `\ifdef`, `\expandafter`, file inclusion and macro invocation consumes
/// one unit.
pub fn process(input: &str, head: &mut Option<Box<MacroNode>>, files: &FileTable, fuel: u64) -> (r:
    Result<String, TexError>)
    ensures
        expand_rel(
            input@,
            0,
            table_view(*old(head)),
            files@,
            fuel as nat,
            r,
            table_view(*final(head)),
        ),
{
    process_at(input, 0, head, files, fuel)
}

/// The views of a list of raw texts.
pub open spec fn texts_view(v: Seq<String>) -> Seq<Seq<char>> {
    v.map_values(|s: String| s@)
}

/// The one document of a run: each raw source comment-stripped, in order,
/// concatenated.
pub open spec fn stripped_document(sources: Seq<Seq<char>>) -> Seq<char>
    decreases sources.len(),
{
    if sources.len() == 0 {
        Seq::empty()
    } else {
        strip_comments(sources[0]) + stripped_document(sources.skip(1))
    }
}

proof fn lemma_stripped_document_snoc(ss: Seq<Seq<char>>, i: int)
    requires
        0 <= i < ss.len(),
    ensures
        stripped_document(ss.take(i + 1)) == stripped_document(ss.take(i)) + strip_comments(ss[i]),
    decreases i,
{
    if i == 0 {
        assert(ss.take(1)[0] == ss[0]);
        assert(ss.take(1).skip(1) =~= Seq::<Seq<char>>::empty());
        assert(ss.take(0) =~= Seq::<Seq<char>>::empty());
        assert(stripped_document(ss.take(1)) =~= stripped_document(ss.take(0)) + strip_comments(
            ss[0],
        ));
    } else {
        lemma_stripped_document_snoc(ss.skip(1), i - 1);
        assert(ss.take(i + 1)[0] == ss[0]);
        assert(ss.take(i)[0] == ss[0]);
        assert(ss.take(i + 1).skip(1) =~= ss.skip(1).take(i));
        assert(ss.take(i).skip(1) =~= ss.skip(1).take(i - 1));
        assert(ss.skip(1)[i - 1] == ss[i]);
        assert(strip_comments(ss[0]) + (stripped_document(ss.skip(1).take(i - 1)) + strip_comments(
            ss[i],
        )) =~= (strip_comments(ss[0]) + stripped_document(ss.skip(1).take(i - 1))) + strip_comments(
            ss[i],
        ));
    }
}

/// What the whole pipeline produces from the given raw sources: the
/// comment-stripped concatenation is expanded under an initially empty macro
/// table and the result normalized, or the first fatal error is reported.
pub open spec fn document_result(
    sources: Seq<Seq<char>>,
    files: Seq<(Seq<char>, Seq<char>)>,
    fuel: nat,
) -> Result<Seq<char>, ExpandErr> {
    match expand(stripped_document(sources), 0, Map::empty(), files, fuel) {
        Result::Ok((out, tbl)) => Result::Ok(normalize(out)),
        Result::Err(e) => Result::Err(e),
    }
}

/// Runs the whole pipeline on the raw sources: strips comments from each,
/// concatenates them into one document, expands it with a fresh macro table,
/// and normalizes the leftover backslash runs.
pub fn expand_document(sources: &Vec<String>, files: &FileTable, fuel: u64) -> (r: Result<
    String,
    TexError,
>)
    ensures
        match r {
            Result::Ok(out) => document_result(texts_view(sources@), files@, fuel as nat)
                == Result::<Seq<char>, ExpandErr>::Ok(out@),
            Result::Err(e) => document_result(texts_view(sources@), files@, fuel as nat)
                == Result::<Seq<char>, ExpandErr>::Err(e@),
        },
{
    let ghost ss = texts_view(sources@);
    let mut doc = String::new();
    let mut idx: usize = 0;
    proof {
        assert(ss.take(0) =~= Seq::<Seq<char>>::empty());
    }
    while idx < sources.len()
        invariant
            idx <= sources.len(),
            ss == texts_view(sources@),
            doc@ == stripped_document(ss.take(idx as int)),
        decreases sources.len() - idx,
    {
        let piece = process_comments(sources[idx].as_str());
        doc.append(piece.as_str());
        proof {
            lemma_stripped_document_snoc(ss, idx as int);
        }
        idx = idx + 1;
    }
    proof {
        assert(ss.take(sources@.len() as int) =~= ss);
    }
    let mut head: Option<Box<MacroNode>> = Option::None;
    proof {
        assert(table_view(Option::<Box<MacroNode>>::None) =~= Map::<Seq<char>, Seq<char>>::empty());
    }
    match process(doc.as_str(), &mut head, files, fuel) {
        Result::Err(e) => Result::Err(e),
        Result::Ok(expanded) => Result::Ok(process_backslashes(expanded.as_str())),
    }
}

} // verus!
