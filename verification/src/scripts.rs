//! Scripts: the files whose output a template is rendered with, by the name
//! a request asks for.
use vstd::prelude::*;

use crate::config::opt_text;
use crate::text::{copy_str, same_text};

verus! {

/// The file registered last under `name` among `entries` (name, file) pairs.
pub open spec fn last_file_for(entries: Seq<(Seq<char>, Seq<char>)>, name: Seq<char>) -> Option<
    Seq<char>,
>
    decreases entries.len(),
{
    if entries.len() == 0 {
        None
    } else if entries.last().0 == name {
        Some(entries.last().1)
    } else {
        last_file_for(entries.drop_last(), name)
    }
}

/// The file found for a name is the one registered last under it: it was
/// registered under the name and no later registration has the name; no file
/// is found exactly where nothing was registered under the name.
pub proof fn lemma_last_registration_wins(entries: Seq<(Seq<char>, Seq<char>)>, name: Seq<char>)
    ensures
        last_file_for(entries, name) matches Some(f) ==> exists|i: int|
            0 <= i < entries.len() && #[trigger] entries[i] == (name, f) && forall|j: int|
                i < j < entries.len() ==> (#[trigger] entries[j]).0 != name,
        last_file_for(entries, name) is None <==> forall|j: int|
            0 <= j < entries.len() ==> (#[trigger] entries[j]).0 != name,
    decreases entries.len(),
{
    if entries.len() > 0 {
        let d = entries.drop_last();
        lemma_last_registration_wins(d, name);
        let k = entries.len() - 1;
        if entries.last().0 == name {
            assert(entries[k] == (name, entries.last().1));
        } else {
            if let Some(f) = last_file_for(d, name) {
                let i = choose|i: int|
                    0 <= i < d.len() && #[trigger] d[i] == (name, f) && forall|j: int|
                        i < j < d.len() ==> (#[trigger] d[j]).0 != name;
                assert(entries[i] == d[i]);
                assert forall|j: int| i < j < entries.len() implies (#[trigger] entries[j]).0 != name by {
                    if j < k {
                        assert(entries[j] == d[j]);
                    }
                }
            }
            assert((forall|j: int| 0 <= j < entries.len() ==> (#[trigger] entries[j]).0 != name)
                <==> (forall|j: int| 0 <= j < d.len() ==> (#[trigger] d[j]).0 != name)) by {
                assert forall|j: int| 0 <= j < d.len() implies d[j] == entries[j] by {}
            }
        }
    }
}

/// The text view of (name, file) pairs.
pub open spec fn entry_texts(v: Seq<(String, String)>) -> Seq<(Seq<char>, Seq<char>)> {
    v.map_values(|e: (String, String)| (e.0@, e.1@))
}

/// The scripts found so far: each name a script file is known by, with the
/// file's path below the scripts path.
pub struct Scripts {
    entries: Vec<(String, String)>,
}

impl View for Scripts {
    type V = Seq<(Seq<char>, Seq<char>)>;

    closed spec fn view(&self) -> Seq<(Seq<char>, Seq<char>)> {
        entry_texts(self.entries@)
    }
}

impl Scripts {
    /// No scripts yet.
    pub fn new() -> (r: Scripts)
        ensures
            r@ == Seq::<(Seq<char>, Seq<char>)>::empty(),
    {
        let r = Scripts { entries: Vec::new() };
        assert(r@ =~= Seq::<(Seq<char>, Seq<char>)>::empty());
        r
    }

    /// Registers the script file at `relative` under each of `names`, in order.
    pub fn add_file(&mut self, names: &Vec<String>, relative: &str)
        ensures
            final(self)@ == old(self)@ + crate::config::texts(names@).map_values(
                |n: Seq<char>| (n, relative@),
            ),
    {
        let ghost start = self@;
        let mut i: usize = 0;
        while i < names.len()
            invariant
                i <= names@.len(),
                start == old(self)@,
                self@ == start + crate::config::texts(names@.take(i as int)).map_values(
                    |n: Seq<char>| (n, relative@),
                ),
            decreases names.len() - i,
        {
            let ghost prev = self.entries@;
            let entry = (copy_str(names[i].as_str()), copy_str(relative));
            self.entries.push(entry);
            assert(entry_texts(self.entries@) =~= entry_texts(prev).push((names@[i as int]@, relative@)));
            assert(crate::config::texts(names@.take(i + 1)).map_values(|n: Seq<char>| (n, relative@))
                =~= crate::config::texts(names@.take(i as int)).map_values(
                |n: Seq<char>| (n, relative@),
            ).push((names@[i as int]@, relative@)));
            i = i + 1;
        }
        assert(names@.take(names@.len() as int) =~= names@);
    }

    /// The file of the script registered last under `name`, if any.
    pub fn find(&self, name: &str) -> (r: Option<String>)
        ensures
            opt_text(r) == last_file_for(self@, name@),
    {
        let mut i = self.entries.len();
        assert(self@.take(i as int) =~= self@);
        while i > 0
            invariant
                i <= self.entries@.len(),
                last_file_for(self@, name@) == last_file_for(self@.take(i as int), name@),
            decreases i,
        {
            let ghost t = self@.take(i as int);
            assert(t.drop_last() =~= self@.take(i - 1));
            assert(t.last() == self@[i - 1]);
            if same_text(self.entries[i - 1].0.as_str(), name) {
                return Some(copy_str(self.entries[i - 1].1.as_str()));
            }
            i = i - 1;
        }
        None
    }
}

impl Default for Scripts {
    fn default() -> (r: Scripts)
        ensures
            r@ == Seq::<(Seq<char>, Seq<char>)>::empty(),
    {
        Scripts::new()
    }
}

} // verus!
