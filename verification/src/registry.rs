//! The language registry: an immutable mapping, built once at startup, from
//! a compiler identifier to its definition.

use vstd::prelude::*;
use crate::text::str_eq;

verus! {

/// A compiler's registered definition: display metadata, the template files
/// staged into a fresh workspace, where the source text is written, and the
/// commands that build and run a program.
pub struct CompilerDef {
    pub language: String,
    pub label: String,
    pub copy_files: Vec<(String, String)>,
    pub source_filename: String,
    pub compile_command: Vec<String>,
    pub run_command: Vec<String>,
}

/// One row of the list response: display metadata for a registered compiler.
pub struct CompilerInfo {
    pub language: String,
    pub compiler_name: String,
    pub label: String,
}

/// Finds the definition registered under `name`, scanning front to back.
pub open spec fn find_in(s: Seq<(String, CompilerDef)>, name: Seq<char>) -> Option<CompilerDef>
    decreases s.len(),
{
    if s.len() == 0 {
        None
    } else if s[0].0@ == name {
        Some(s[0].1)
    } else {
        find_in(s.drop_first(), name)
    }
}

/// The registry of configured compilers, keyed by identifier.
pub struct Registry {
    entries: Vec<(String, CompilerDef)>,
}

impl Registry {
    /// The registered (identifier, definition) pairs, in registration order
    /// (newest first).
    pub closed spec fn entries_seq(self) -> Seq<(String, CompilerDef)> {
        self.entries@
    }

    /// Well-formed: no identifier is registered twice.
    pub open spec fn wf(self) -> bool {
        forall|i: int, j: int|
            0 <= i < j < self.entries_seq().len() ==> self.entries_seq()[i].0@
                != self.entries_seq()[j].0@
    }

    /// The definition registered under `name`, if any.
    pub open spec fn spec_find(self, name: Seq<char>) -> Option<CompilerDef> {
        find_in(self.entries_seq(), name)
    }

    /// An empty registry.
    pub fn new() -> (r: Registry)
        ensures
            r.wf(),
            r.entries_seq() =~= Seq::<(String, CompilerDef)>::empty(),
    {
        Registry { entries: Vec::new() }
    }

    /// Registers a definition under an identifier. A duplicate identifier is
    /// rejected and leaves the registry unchanged.
    pub fn register(&mut self, name: String, def: CompilerDef) -> (added: bool)
        requires
            old(self).wf(),
        ensures
            final(self).wf(),
            added == (old(self).spec_find(name@) is None),
            added ==> final(self).entries_seq() == old(self).entries_seq().insert(
                0,
                (name, def),
            ),
            added ==> final(self).spec_find(name@) == Some(def),
            !added ==> *final(self) == *old(self),
            forall|other: Seq<char>|
                other != name@ ==> final(self).spec_find(other) == old(self).spec_find(other),
    {
        if self.lookup(name.as_str()).is_some() {
            return false;
        }
        proof {
            lemma_find_iff_present(self.entries_seq(), name@);
        }
        self.entries.insert(0, (name, def));
        proof {
            assert(self.entries_seq().drop_first() =~= old(self).entries_seq());
            assert forall|other: Seq<char>| other != name@ implies self.spec_find(other) == old(
                self,
            ).spec_find(other) by {
                assert(self.spec_find(other) == find_in(self.entries_seq().drop_first(), other));
            }
        }
        true
    }

    /// Looks an identifier up; `None` exactly when it was never registered.
    pub fn lookup(&self, name: &str) -> (r: Option<&CompilerDef>)
        ensures
            match r {
                Some(d) => self.spec_find(name@) == Some(*d),
                None => self.spec_find(name@) is None,
            },
    {
        let n = self.entries.len();
        let mut i: usize = 0;
        proof {
            assert(self.entries_seq().skip(0) =~= self.entries_seq());
        }
        while i < n
            invariant
                n == self.entries_seq().len(),
                i <= n,
                find_in(self.entries_seq(), name@) == find_in(
                    self.entries_seq().skip(i as int),
                    name@,
                ),
            decreases n - i,
        {
            let entry = &self.entries[i];
            proof {
                assert(self.entries_seq().skip(i as int)[0] == self.entries_seq()[i as int]);
                assert(self.entries_seq().skip(i as int).drop_first() =~= self.entries_seq().skip(
                    i as int + 1,
                ));
            }
            if str_eq(entry.0.as_str(), name) {
                return Some(&self.entries[i].1);
            }
            i += 1;
        }
        None
    }

    /// The display rows for every registered compiler, in registration
    /// order.
    pub fn list(&self) -> (r: Vec<CompilerInfo>)
        ensures
            r@.len() == self.entries_seq().len(),
            forall|i: int|
                0 <= i < r@.len() ==> {
                    &&& r@[i].language@ == self.entries_seq()[i].1.language@
                    &&& r@[i].compiler_name@ == self.entries_seq()[i].0@
                    &&& r@[i].label@ == self.entries_seq()[i].1.label@
                },
    {
        let n = self.entries.len();
        let mut out: Vec<CompilerInfo> = Vec::new();
        let mut i: usize = 0;
        while i < n
            invariant
                n == self.entries_seq().len(),
                i <= n,
                out@.len() == i,
                forall|j: int|
                    0 <= j < i ==> {
                        &&& out@[j].language@ == self.entries_seq()[j].1.language@
                        &&& out@[j].compiler_name@ == self.entries_seq()[j].0@
                        &&& out@[j].label@ == self.entries_seq()[j].1.label@
                    },
            decreases n - i,
        {
            let entry = &self.entries[i];
            out.push(
                CompilerInfo {
                    language: entry.1.language.clone(),
                    compiler_name: entry.0.clone(),
                    label: entry.1.label.clone(),
                },
            );
            i += 1;
        }
        out
    }
}

/// The scan finds `name` exactly when some entry carries it.
proof fn lemma_find_iff_present(s: Seq<(String, CompilerDef)>, name: Seq<char>)
    ensures
        (find_in(s, name) is Some) <==> exists|i: int| 0 <= i < s.len() && s[i].0@ == name,
    decreases s.len(),
{
    if s.len() > 0 && s[0].0@ != name {
        lemma_find_iff_present(s.drop_first(), name);
        if find_in(s, name) is Some {
            let i = choose|i: int|
                0 <= i < s.drop_first().len() && s.drop_first()[i].0@ == name;
            assert(s[i + 1].0@ == name);
        }
        if exists|i: int| 0 <= i < s.len() && s[i].0@ == name {
            let i = choose|i: int| 0 <= i < s.len() && s[i].0@ == name;
            assert(s.drop_first()[i - 1].0@ == name);
        }
    }
}

} // verus!
