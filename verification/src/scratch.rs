//! Per-invocation scratch file names.
//!
//! Every run of a compiled artifact gets a fresh random prefix and derives
//! its four transient file names from it. Concurrent runs of the same
//! artifact therefore never touch each other's files: names that share the
//! prefix are pairwise distinct, and names under different prefixes of equal
//! length are disjoint altogether.

use vstd::prelude::*;
use vstd::string::StringExecFns;

verus! {

/// Suffix of the file a run's input text is written to.
pub open spec fn stdin_suffix() -> Seq<char> {
    seq!['-', 's', 't', 'd', 'i', 'n', '.', 't', 'x', 't']
}

/// Suffix of the file a run's standard output is captured in.
pub open spec fn stdout_suffix() -> Seq<char> {
    seq!['-', 's', 't', 'd', 'o', 'u', 't', '.', 't', 'x', 't']
}

/// Suffix of the file a run's standard error is captured in.
pub open spec fn stderr_suffix() -> Seq<char> {
    seq!['-', 's', 't', 'd', 'e', 'r', 'r', '.', 't', 'x', 't']
}

/// Suffix of the file the resource-measurement wrapper reports into.
pub open spec fn report_suffix() -> Seq<char> {
    seq!['-', 't', 'i', 'm', 'e', '.', 't', 'x', 't']
}

/// The four scratch file names of one run, all derived from one prefix.
pub struct ScratchNames {
    pub prefix: String,
    pub stdin_name: String,
    pub stdout_name: String,
    pub stderr_name: String,
    pub report_name: String,
}

impl ScratchNames {
    /// Each name is the prefix followed by its fixed suffix.
    pub open spec fn wf(self) -> bool {
        &&& self.stdin_name@ == self.prefix@ + stdin_suffix()
        &&& self.stdout_name@ == self.prefix@ + stdout_suffix()
        &&& self.stderr_name@ == self.prefix@ + stderr_suffix()
        &&& self.report_name@ == self.prefix@ + report_suffix()
    }

    /// The names of this invocation's files.
    pub open spec fn name_set(self) -> Set<Seq<char>> {
        set![self.stdin_name@, self.stdout_name@, self.stderr_name@, self.report_name@]
    }
}

/// Derives the four scratch names from a prefix.
pub fn scratch_names(prefix: &str) -> (r: ScratchNames)
    ensures
        r.wf(),
        r.prefix@ == prefix@,
{
    let mut stdin_name = prefix.to_owned();
    stdin_name.append("-stdin.txt");
    let mut stdout_name = prefix.to_owned();
    stdout_name.append("-stdout.txt");
    let mut stderr_name = prefix.to_owned();
    stderr_name.append("-stderr.txt");
    let mut report_name = prefix.to_owned();
    report_name.append("-time.txt");
    proof {
        reveal_strlit("-stdin.txt");
        reveal_strlit("-stdout.txt");
        reveal_strlit("-stderr.txt");
        reveal_strlit("-time.txt");
        assert(("-stdin.txt")@ =~= stdin_suffix());
        assert(("-stdout.txt")@ =~= stdout_suffix());
        assert(("-stderr.txt")@ =~= stderr_suffix());
        assert(("-time.txt")@ =~= report_suffix());
    }
    ScratchNames { prefix: prefix.to_owned(), stdin_name, stdout_name, stderr_name, report_name }
}

/// Relies on `uuid::Uuid::new_v4` and its hyphenated display form: 36
/// characters. Nothing is assumed about which value comes back.
#[verifier::external_body]
fn random_prefix() -> (r: String)
    ensures
        r@.len() == 36,
{
    uuid::Uuid::new_v4().to_string()
}

/// Scratch names under a fresh random prefix for one run.
pub fn fresh_scratch_names() -> (r: ScratchNames)
    ensures
        r.wf(),
        r.prefix@.len() == 36,
{
    let prefix = random_prefix();
    scratch_names(prefix.as_str())
}

/// Two sequences with the same prefix length but different prefixes stay
/// different whatever is appended.
proof fn lemma_prefixed_distinct(p1: Seq<char>, s1: Seq<char>, p2: Seq<char>, s2: Seq<char>)
    requires
        p1.len() == p2.len(),
        p1 != p2,
    ensures
        p1 + s1 != p2 + s2,
{
    if p1 + s1 == p2 + s2 {
        assert forall|i: int| 0 <= i < p1.len() implies p1[i] == p2[i] by {
            assert((p1 + s1)[i] == p1[i]);
            assert((p2 + s2)[i] == p2[i]);
        }
        assert(p1 =~= p2);
    }
}

/// The four names of one invocation are pairwise distinct, so one run's
/// files never alias each other.
pub proof fn lemma_scratch_names_distinct(a: ScratchNames)
    requires
        a.wf(),
    ensures
        a.stdin_name@ != a.stdout_name@,
        a.stdin_name@ != a.stderr_name@,
        a.stdin_name@ != a.report_name@,
        a.stdout_name@ != a.stderr_name@,
        a.stdout_name@ != a.report_name@,
        a.stderr_name@ != a.report_name@,
{
    let p = a.prefix@;
    assert(a.stdin_name@.len() == p.len() + 10);
    assert(a.stdout_name@.len() == p.len() + 11);
    assert(a.stderr_name@.len() == p.len() + 11);
    assert(a.report_name@.len() == p.len() + 9);
    assert(a.stdout_name@[p.len() as int + 4] == 'o');
    assert(a.stderr_name@[p.len() as int + 4] == 'e');
}

/// No cross-contamination: two invocations whose prefixes differ but have
/// equal length share no scratch file name at all.
pub proof fn lemma_scratch_disjoint(a: ScratchNames, b: ScratchNames)
    requires
        a.wf(),
        b.wf(),
        a.prefix@.len() == b.prefix@.len(),
        a.prefix@ != b.prefix@,
    ensures
        a.name_set().disjoint(b.name_set()),
{
    let p1 = a.prefix@;
    let p2 = b.prefix@;
    lemma_prefixed_distinct(p1, stdin_suffix(), p2, stdin_suffix());
    lemma_prefixed_distinct(p1, stdin_suffix(), p2, stdout_suffix());
    lemma_prefixed_distinct(p1, stdin_suffix(), p2, stderr_suffix());
    lemma_prefixed_distinct(p1, stdin_suffix(), p2, report_suffix());
    lemma_prefixed_distinct(p1, stdout_suffix(), p2, stdin_suffix());
    lemma_prefixed_distinct(p1, stdout_suffix(), p2, stdout_suffix());
    lemma_prefixed_distinct(p1, stdout_suffix(), p2, stderr_suffix());
    lemma_prefixed_distinct(p1, stdout_suffix(), p2, report_suffix());
    lemma_prefixed_distinct(p1, stderr_suffix(), p2, stdin_suffix());
    lemma_prefixed_distinct(p1, stderr_suffix(), p2, stdout_suffix());
    lemma_prefixed_distinct(p1, stderr_suffix(), p2, stderr_suffix());
    lemma_prefixed_distinct(p1, stderr_suffix(), p2, report_suffix());
    lemma_prefixed_distinct(p1, report_suffix(), p2, stdin_suffix());
    lemma_prefixed_distinct(p1, report_suffix(), p2, stdout_suffix());
    lemma_prefixed_distinct(p1, report_suffix(), p2, stderr_suffix());
    lemma_prefixed_distinct(p1, report_suffix(), p2, report_suffix());
    assert forall|x: Seq<char>| a.name_set().contains(x) implies !b.name_set().contains(x) by {}
}

} // verus!
