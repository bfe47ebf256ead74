//! The texts available to the file-inclusion directive.
//!
//! The engine itself performs no I/O: a run is handed every file it may pull
//! in as a `FileTable` of path and raw contents. A lookup of a path that is
//! not in the table fails with `FileNotFound`, naming the path, so that the
//! caller can read the file and run again.

use vstd::prelude::*;

use crate::scan::str_eq;

verus! {

/// First raw text stored under `path`, if any.
pub open spec fn assoc_find(files: Seq<(Seq<char>, Seq<char>)>, path: Seq<char>) -> Option<
    Seq<char>,
>
    decreases files.len(),
{
    if files.len() == 0 {
        Option::None
    } else if files[0].0 == path {
        Option::Some(files[0].1)
    } else {
        assoc_find(files.skip(1), path)
    }
}

/// The texts a run may pull in, as pairs of path and raw contents.
pub struct FileTable {
    pub entries: Vec<(String, String)>,
}

impl View for FileTable {
    type V = Seq<(Seq<char>, Seq<char>)>;

    open spec fn view(&self) -> Seq<(Seq<char>, Seq<char>)> {
        self.entries@.map_values(|p: (String, String)| (p.0@, p.1@))
    }
}

impl FileTable {
    /// An empty table: every lookup fails.
    pub fn new() -> (r: FileTable)
        ensures
            r@ == Seq::<(Seq<char>, Seq<char>)>::empty(),
    {
        let r = FileTable { entries: Vec::new() };
        proof {
            assert(r@ =~= Seq::<(Seq<char>, Seq<char>)>::empty());
        }
        r
    }

    /// Makes the raw `text` available under `path`.
    pub fn add_text(&mut self, path: String, text: String)
        ensures
            final(self)@ == old(self)@.push((path@, text@)),
    {
        let ghost old_view = self@;
        let ghost pv = path@;
        let ghost tv = text@;
        self.entries.push((path, text));
        proof {
            assert(self@ =~= old_view.push((pv, tv)));
        }
    }

    /// The raw text stored under `path`, if any.
    pub fn find_text(&self, path: &str) -> (r: Option<&String>)
        ensures
            match r {
                Option::Some(t) => assoc_find(self@, path@) == Option::Some(t@),
                Option::None => assoc_find(self@, path@) is None,
            },
    {
        let n = self.entries.len();
        let mut i: usize = 0;
        proof {
            assert(self@.skip(0) =~= self@);
        }
        while i < n
            invariant
                i <= n,
                n == self.entries.len(),
                assoc_find(self@, path@) == assoc_find(self@.skip(i as int), path@),
            decreases n - i,
        {
            if str_eq(self.entries[i].0.as_str(), path) {
                proof {
                    assert(self@.skip(i as int)[0] == (self.entries@[i as int].0@,
                    self.entries@[i as int].1@));
                }
                return Option::Some(&self.entries[i].1);
            }
            proof {
                assert(self@.skip(i as int)[0] == (self.entries@[i as int].0@,
                self.entries@[i as int].1@));
                assert(self@.skip(i as int).skip(1) =~= self@.skip(i as int + 1));
            }
            i = i + 1;
        }
        proof {
            assert(self@.skip(i as int).len() == 0);
        }
        Option::None
    }
}

} // verus!
