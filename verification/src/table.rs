//! The macro table: a mutable store of macro name to macro body.
//!
//! The store is a singly linked list of nodes, viewed in contracts as a
//! `Map<Seq<char>, Seq<char>>` in which a node nearer the head shadows any
//! later node of the same name. The expansion engine mutates the table only
//! through [`apply_def`] and [`apply_undef`], which carry the duplicate and
//! unknown-name rules of `\def` and `\undef`.

use vstd::prelude::*;

use crate::errors::TexError;
use crate::scan::str_eq;

verus! {

/// One macro definition: a name bound to a raw body, stored verbatim.
pub struct MacroNode {
    pub name: String,
    pub value: String,
    pub next: Option<Box<MacroNode>>,
}

/// The mapping a list of nodes stands for; the head wins on a repeated name.
pub open spec fn table_view(t: Option<Box<MacroNode>>) -> Map<Seq<char>, Seq<char>>
    decreases t,
{
    match t {
        Option::None => Map::empty(),
        Option::Some(node) => table_view(node.next).insert(node.name@, node.value@),
    }
}

impl MacroNode {
    /// A fresh single node holding `name` bound to `value`.
    pub fn new(name: &str, value: &str) -> (r: Box<MacroNode>)
        ensures
            r.name@ == name@,
            r.value@ == value@,
            r.next is None,
    {
        Box::new(MacroNode { name: name.to_owned(), value: value.to_owned(), next: Option::None })
    }
}

/// Whether a macro of the given name is currently defined.
pub fn macro_exists(head: &Option<Box<MacroNode>>, name: &str) -> (r: bool)
    ensures
        r == table_view(*head).contains_key(name@),
    decreases *head,
{
    match head {
        Option::None => false,
        Option::Some(node) => {
            if str_eq(node.name.as_str(), name) {
                true
            } else {
                macro_exists(&node.next, name)
            }
        },
    }
}

/// The body bound to the given name, if any.
pub fn find_macro_value(head: &Option<Box<MacroNode>>, name: &str) -> (r: Option<String>)
    ensures
        match r {
            Option::Some(v) => table_view(*head).contains_key(name@) && v@ == table_view(
                *head,
            )[name@],
            Option::None => !table_view(*head).contains_key(name@),
        },
    decreases *head,
{
    match head {
        Option::None => Option::None,
        Option::Some(node) => {
            if str_eq(node.name.as_str(), name) {
                Option::Some(node.value.clone())
            } else {
                find_macro_value(&node.next, name)
            }
        },
    }
}

fn table_insert(t: Option<Box<MacroNode>>, name: &str, value: &str) -> (r: Option<Box<MacroNode>>)
    ensures
        table_view(r) == table_view(t).insert(name@, value@),
    decreases t,
{
    match t {
        Option::None => {
            let r = Option::Some(MacroNode::new(name, value));
            proof {
                assert(table_view(r) =~= table_view(Option::<Box<MacroNode>>::None).insert(
                    name@,
                    value@,
                ));
            }
            r
        },
        Option::Some(node) => {
            let mut node = node;
            if str_eq(node.name.as_str(), name) {
                node.value = value.to_owned();
                let r = Option::Some(node);
                proof {
                    assert(table_view(r) =~= table_view(Option::Some(node)).insert(name@, value@));
                }
                r
            } else {
                let MacroNode { name: nm, value: v, next } = *node;
                let new_next = table_insert(next, name, value);
                let r = Option::Some(Box::new(MacroNode { name: nm, value: v, next: new_next }));
                proof {
                    assert(table_view(r) =~= table_view(Option::Some(node)).insert(name@, value@));
                }
                r
            }
        },
    }
}

fn table_remove(t: Option<Box<MacroNode>>, name: &str) -> (r: Option<Box<MacroNode>>)
    ensures
        table_view(r) == table_view(t).remove(name@),
    decreases t,
{
    match t {
        Option::None => {
            proof {
                assert(table_view(Option::<Box<MacroNode>>::None) =~= table_view(
                    Option::<Box<MacroNode>>::None,
                ).remove(name@));
            }
            Option::None
        },
        Option::Some(node) => {
            if str_eq(node.name.as_str(), name) {
                let MacroNode { name: _, value: _, next } = *node;
                let r = table_remove(next, name);
                proof {
                    assert(table_view(r) =~= table_view(Option::Some(node)).remove(name@));
                }
                r
            } else {
                let MacroNode { name: nm, value: v, next } = *node;
                let new_next = table_remove(next, name);
                let r = Option::Some(Box::new(MacroNode { name: nm, value: v, next: new_next }));
                proof {
                    assert(table_view(r) =~= table_view(Option::Some(node)).remove(name@));
                }
                r
            }
        },
    }
}

/// Binds `name` to `value`, replacing any earlier binding of that name.
pub fn add_or_update_macro(head: &mut Option<Box<MacroNode>>, name: &str, value: &str)
    ensures
        table_view(*final(head)) == table_view(*old(head)).insert(name@, value@),
{
    let t = head.take();
    *head = table_insert(t, name, value);
}

/// Drops every binding of `name`; without one, leaves the table as it is.
pub fn remove_macro(head: &mut Option<Box<MacroNode>>, name: &str)
    ensures
        table_view(*final(head)) == table_view(*old(head)).remove(name@),
{
    let t = head.take();
    *head = table_remove(t, name);
}

/// The `\def` rule: fails with `DuplicateMacro` on a name that already
/// exists, leaving the table as it was; otherwise binds `name` to `value`.
pub fn apply_def(head: &mut Option<Box<MacroNode>>, name: &str, value: &str) -> (r: Result<
    (),
    TexError,
>)
    ensures
        table_view(*old(head)).contains_key(name@) ==> r == Result::<(), TexError>::Err(
            TexError::DuplicateMacro,
        ) && table_view(*final(head)) == table_view(*old(head)),
        !table_view(*old(head)).contains_key(name@) ==> r == Result::<(), TexError>::Ok(())
            && table_view(*final(head)) == table_view(*old(head)).insert(name@, value@),
{
    if macro_exists(head, name) {
        Result::Err(TexError::DuplicateMacro)
    } else {
        add_or_update_macro(head, name, value);
        Result::Ok(())
    }
}

/// The `\undef` rule: fails with `UnknownMacro` on a name that was never
/// defined, leaving the table as it was; otherwise removes the binding.
pub fn apply_undef(head: &mut Option<Box<MacroNode>>, name: &str) -> (r: Result<(), TexError>)
    ensures
        !table_view(*old(head)).contains_key(name@) ==> r == Result::<(), TexError>::Err(
            TexError::UnknownMacro,
        ) && table_view(*final(head)) == table_view(*old(head)),
        table_view(*old(head)).contains_key(name@) ==> r == Result::<(), TexError>::Ok(())
            && table_view(*final(head)) == table_view(*old(head)).remove(name@),
{
    if macro_exists(head, name) {
        remove_macro(head, name);
        Result::Ok(())
    } else {
        Result::Err(TexError::UnknownMacro)
    }
}

/// Defining a name makes it visible, and removing it afterwards hides it
/// again: `Exists` answers true after `Define` and false after `Remove`,
/// whatever else the table holds.
pub proof fn lemma_define_exists_remove(
    t: Map<Seq<char>, Seq<char>>,
    name: Seq<char>,
    body: Seq<char>,
)
    ensures
        t.insert(name, body).contains_key(name),
        t.insert(name, body)[name] == body,
        !t.insert(name, body).remove(name).contains_key(name),
{
}

} // verus!
