//! Comparison of two compilation databases as multisets of entries.

use vstd::prelude::*;
use vstd::multiset::Multiset;
use crate::text::{decimal, decimal_text, same_str};
use crate::tools::cc::{opt_view, CompileCmd};

verus! {

// ---------------------------------------------------------------- entry equality

/// What tells entries apart: the directory, the file, the arguments and the
/// output. The command string is not part of it.
pub struct EntryKey {
    pub directory: Seq<char>,
    pub file: Seq<char>,
    pub arguments: Seq<Seq<char>>,
    pub output: Option<Seq<char>>,
}

/// The key of an entry.
pub open spec fn entry_key(c: CompileCmd) -> EntryKey {
    EntryKey {
        directory: c@.directory,
        file: c@.file,
        arguments: c@.arguments,
        output: c@.output,
    }
}

/// The keys of entries.
pub open spec fn keys_view(v: Seq<CompileCmd>) -> Seq<EntryKey> {
    v.map_values(|c: CompileCmd| entry_key(c))
}

/// Whether two strings are equal.
fn same_string(a: &String, b: &String) -> (r: bool)
    ensures
        r == (a@ == b@),
{
    same_str(a.as_str(), b.as_str())
}

/// Whether two optional strings are equal.
fn same_opt(a: &Option<String>, b: &Option<String>) -> (r: bool)
    ensures
        r == (opt_view(*a) == opt_view(*b)),
{
    match (a, b) {
        (Some(x), Some(y)) => same_string(x, y),
        (None, None) => true,
        _ => false,
    }
}

/// Whether two lists of strings are equal.
fn same_strings(a: &Vec<String>, b: &Vec<String>) -> (r: bool)
    ensures
        r == (a.deep_view() == b.deep_view()),
{
    if a.len() != b.len() {
        assert(a.deep_view().len() != b.deep_view().len());
        return false;
    }
    let mut i: usize = 0;
    while i < a.len()
        invariant
            i <= a.len() == b.len(),
            forall|k: int| 0 <= k < i ==> a.deep_view()[k] == b.deep_view()[k],
        decreases a.len() - i,
    {
        if !same_string(&a[i], &b[i]) {
            assert(a.deep_view()[i as int] != b.deep_view()[i as int]);
            return false;
        }
        i = i + 1;
    }
    assert(a.deep_view() =~= b.deep_view());
    true
}

impl CompileCmd {
    /// Whether two entries hold the same directory, file, arguments and
    /// output.
    pub fn same(&self, other: &CompileCmd) -> (r: bool)
        ensures
            r == (entry_key(*self) == entry_key(*other)),
    {
        same_string(&self.directory, &other.directory) && same_string(&self.file, &other.file)
            && same_strings(
            &self.arguments,
            &other.arguments,
        ) && same_opt(&self.output, &other.output)
    }
}

// ---------------------------------------------------------------- multisets

/// The number of times `x` occurs in `s`.
pub open spec fn count_of(s: Seq<EntryKey>, x: EntryKey) -> nat
    decreases s.len(),
{
    if s.len() == 0 {
        0
    } else {
        count_of(s.drop_last(), x) + if s.last() == x {
            1nat
        } else {
            0nat
        }
    }
}

/// Whether `a` and `b` hold the same entries, each as many times.
pub open spec fn same_multiset(a: Seq<EntryKey>, b: Seq<EntryKey>) -> bool {
    forall|x: EntryKey| count_of(a, x) == count_of(b, x)
}

/// The distinct entries of `a` that `b` lacks, in the order of their first
/// occurrence in `a`.
pub open spec fn lacking(a: Seq<EntryKey>, b: Seq<EntryKey>) -> Seq<EntryKey>
    decreases a.len(),
{
    if a.len() == 0 {
        seq![]
    } else if !b.contains(a.last()) && !a.drop_last().contains(a.last()) {
        lacking(a.drop_last(), b).push(a.last())
    } else {
        lacking(a.drop_last(), b)
    }
}

/// An entry occurs in a sequence exactly when it is counted there.
pub proof fn lemma_count_contains(s: Seq<EntryKey>, x: EntryKey)
    ensures
        count_of(s, x) > 0 <==> s.contains(x),
    decreases s.len(),
{
    if s.len() > 0 {
        lemma_count_contains(s.drop_last(), x);
        if s.drop_last().contains(x) {
            let k = choose|k: int| 0 <= k < s.drop_last().len() && s.drop_last()[k] == x;
            assert(s[k] == x);
        }
        if s.contains(x) && s.last() != x {
            let k = choose|k: int| 0 <= k < s.len() && s[k] == x;
            assert(s.drop_last()[k] == x);
        }
    }
}

/// Nothing is lacking exactly when every entry of `a` occurs in `b`.
pub proof fn lemma_lacking_empty(a: Seq<EntryKey>, b: Seq<EntryKey>)
    ensures
        lacking(a, b).len() == 0 <==> (forall|k: int| 0 <= k < a.len() ==> b.contains(#[trigger] a[k])),
    decreases a.len(),
{
    if a.len() > 0 {
        lemma_lacking_empty(a.drop_last(), b);
        let p = a.drop_last();
        if lacking(a, b).len() == 0 {
            assert forall|k: int| 0 <= k < a.len() implies b.contains(#[trigger] a[k]) by {
                if k < a.len() - 1 {
                    assert(p[k] == a[k]);
                } else if !b.contains(a.last()) {
                    let j = choose|j: int| 0 <= j < p.len() && p[j] == a.last();
                    assert(b.contains(p[j]));
                }
            }
        }
        if forall|k: int| 0 <= k < a.len() ==> b.contains(#[trigger] a[k]) {
            assert forall|k: int| 0 <= k < p.len() implies b.contains(#[trigger] p[k]) by {
                assert(a[k] == p[k]);
            }
            assert(b.contains(a[a.len() - 1]));
        }
    }
}

// ---------------------------------------------------------------- comparison

/// Which way two databases differ.
#[derive(Debug, PartialEq, Eq, Structural, Clone, Copy)]
pub enum MismatchKind {
    /// Entries of the reference are missing from the test input.
    Missing,
    /// Entries of the test input are not in the reference.
    Extra,
    /// Both hold the same entries, some of them a different number of times.
    Count,
}

/// How two databases differ: the kind, the entries of the reference that
/// the test input lacks, and the entries of the test input that the
/// reference lacks (both empty for `Count`).
#[derive(Debug)]
pub struct Mismatch {
    pub kind: MismatchKind,
    pub missing: Vec<CompileCmd>,
    pub extra: Vec<CompileCmd>,
}

/// How `a` differs from `b`, or `None` where they hold the same entries as
/// many times each: the kind, the distinct entries of `a` that `b` lacks,
/// and those of `b` that `a` lacks.
pub open spec fn compare_spec(a: Seq<EntryKey>, b: Seq<EntryKey>) -> Option<
    (MismatchKind, Seq<EntryKey>, Seq<EntryKey>),
> {
    if lacking(a, b).len() > 0 {
        Some((MismatchKind::Missing, lacking(a, b), lacking(b, a)))
    } else if lacking(b, a).len() > 0 {
        Some((MismatchKind::Extra, lacking(a, b), lacking(b, a)))
    } else if !same_multiset(a, b) {
        Some((MismatchKind::Count, seq![], seq![]))
    } else {
        None
    }
}

impl CompileCmd {
    /// A copy of this entry.
    pub fn duplicate(&self) -> (r: CompileCmd)
        ensures
            r@ == self@,
    {
        let mut arguments: Vec<String> = Vec::new();
        let mut i: usize = 0;
        while i < self.arguments.len()
            invariant
                i <= self.arguments.len(),
                arguments.deep_view() == self.arguments.deep_view().take(i as int),
            decreases self.arguments.len() - i,
        {
            let c = self.arguments[i].clone();
            assert(c@ == self.arguments.deep_view()[i as int]);
            let ghost before = arguments.deep_view();
            arguments.push(c);
            assert(arguments.deep_view() =~= before.push(c@));
            assert(arguments.deep_view() =~= self.arguments.deep_view().take(i + 1));
            i = i + 1;
        }
        assert(self.arguments.deep_view().take(i as int) =~= self.arguments.deep_view());
        let command = match &self.command {
            Some(c) => Some(c.clone()),
            None => None,
        };
        let output = match &self.output {
            Some(c) => Some(c.clone()),
            None => None,
        };
        CompileCmd {
            directory: self.directory.clone(),
            file: self.file.clone(),
            command,
            arguments,
            output,
        }
    }
}

/// Whether `x` occurs among the first `n` entries of `s`.
fn occurs_in(s: &Vec<CompileCmd>, n: usize, x: &CompileCmd) -> (r: bool)
    requires
        n <= s.len(),
    ensures
        r == keys_view(s@).take(n as int).contains(entry_key(*x)),
{
    let ghost sv = keys_view(s@).take(n as int);
    let mut i: usize = 0;
    while i < n
        invariant
            i <= n <= s.len(),
            sv == keys_view(s@).take(n as int),
            forall|k: int| 0 <= k < i ==> sv[k] != entry_key(*x),
        decreases n - i,
    {
        if s[i].same(x) {
            assert(sv[i as int] == entry_key(*x));
            return true;
        }
        i = i + 1;
    }
    false
}

/// The number of times `x` occurs in `s`.
fn count_in(s: &Vec<CompileCmd>, x: &CompileCmd) -> (r: usize)
    ensures
        r == count_of(keys_view(s@), entry_key(*x)),
{
    let ghost sv = keys_view(s@);
    let mut c: usize = 0;
    let mut i: usize = 0;
    while i < s.len()
        invariant
            i <= s.len(),
            sv == keys_view(s@),
            c == count_of(sv.take(i as int), entry_key(*x)),
            c <= i,
        decreases s.len() - i,
    {
        assert(sv.take(i + 1).drop_last() =~= sv.take(i as int));
        if s[i].same(x) {
            c = c + 1;
        }
        i = i + 1;
    }
    assert(sv.take(s.len() as int) =~= sv);
    c
}

/// The distinct entries of `a` that `b` lacks, in the order of their first
/// occurrence in `a`.
fn lacking_entries(a: &Vec<CompileCmd>, b: &Vec<CompileCmd>) -> (r: Vec<CompileCmd>)
    ensures
        keys_view(r@) == lacking(keys_view(a@), keys_view(b@)),
{
    let ghost av = keys_view(a@);
    let ghost bv = keys_view(b@);
    let mut out: Vec<CompileCmd> = Vec::new();
    let mut i: usize = 0;
    while i < a.len()
        invariant
            i <= a.len(),
            av == keys_view(a@),
            bv == keys_view(b@),
            keys_view(out@) == lacking(av.take(i as int), bv),
        decreases a.len() - i,
    {
        assert(av.take(i + 1).drop_last() =~= av.take(i as int));
        assert(keys_view(b@).take(b.len() as int) =~= bv);
        if !occurs_in(b, b.len(), &a[i]) && !occurs_in(a, i, &a[i]) {
            out.push(a[i].duplicate());
            assert(keys_view(out@) =~= keys_view(out@.drop_last()).push(entry_key(a@[i as int])));
        }
        i = i + 1;
    }
    assert(av.take(a.len() as int) =~= av);
    out
}

/// Whether every entry of `a` occurs as many times in `b` as in `a`.
fn counts_agree(a: &Vec<CompileCmd>, b: &Vec<CompileCmd>) -> (r: bool)
    ensures
        r == (forall|k: int|
            0 <= k < a.len() ==> count_of(keys_view(a@), #[trigger] keys_view(a@)[k]) == count_of(
                keys_view(b@),
                keys_view(a@)[k],
            )),
{
    let ghost av = keys_view(a@);
    let ghost bv = keys_view(b@);
    let mut i: usize = 0;
    while i < a.len()
        invariant
            i <= a.len(),
            av == keys_view(a@),
            bv == keys_view(b@),
            forall|k: int| 0 <= k < i ==> count_of(av, #[trigger] av[k]) == count_of(bv, av[k]),
        decreases a.len() - i,
    {
        if count_in(a, &a[i]) != count_in(b, &a[i]) {
            assert(count_of(av, av[i as int]) != count_of(bv, av[i as int]));
            return false;
        }
        i = i + 1;
    }
    true
}

/// Compares a reference database with a test database as multisets of
/// entries. Where either lacks entries of the other, both lists are
/// reported, and the kind is `Missing` where the test input lacks some,
/// `Extra` otherwise; where both hold the same entries, a difference in how
/// many times some entry occurs is reported as `Count`.
pub fn compare_cmds(ref_cmds: &Vec<CompileCmd>, tst_cmds: &Vec<CompileCmd>) -> (r: Result<
    (),
    Mismatch,
>)
    ensures
        match r {
            Ok(()) => compare_spec(keys_view(ref_cmds@), keys_view(tst_cmds@)) is None,
            Err(m) => compare_spec(keys_view(ref_cmds@), keys_view(tst_cmds@)) == Some(
                (m.kind, keys_view(m.missing@), keys_view(m.extra@)),
            ),
        },
        r is Ok <==> same_multiset(keys_view(ref_cmds@), keys_view(tst_cmds@)),
{
    let ghost a = keys_view(ref_cmds@);
    let ghost b = keys_view(tst_cmds@);
    proof {
        lemma_same_multiset_no_lacking(a, b);
    }
    let missing = lacking_entries(ref_cmds, tst_cmds);
    let extra = lacking_entries(tst_cmds, ref_cmds);
    if missing.len() > 0 {
        return Err(Mismatch { kind: MismatchKind::Missing, missing, extra });
    }
    if extra.len() > 0 {
        return Err(Mismatch { kind: MismatchKind::Extra, missing, extra });
    }
    if !counts_agree(ref_cmds, tst_cmds) {
        assert(!same_multiset(a, b));
        return Err(Mismatch { kind: MismatchKind::Count, missing, extra });
    }
    proof {
        lemma_counts_agree_same(a, b);
    }
    Ok(())
}

/// Two sequences that hold the same multiset lack nothing of each other.
proof fn lemma_same_multiset_no_lacking(a: Seq<EntryKey>, b: Seq<EntryKey>)
    ensures
        same_multiset(a, b) ==> lacking(a, b).len() == 0 && lacking(b, a).len() == 0,
{
    if same_multiset(a, b) {
        assert forall|k: int| 0 <= k < a.len() implies b.contains(#[trigger] a[k]) by {
            lemma_count_contains(a, a[k]);
            lemma_count_contains(b, a[k]);
        }
        assert forall|k: int| 0 <= k < b.len() implies a.contains(#[trigger] b[k]) by {
            lemma_count_contains(a, b[k]);
            lemma_count_contains(b, b[k]);
        }
        lemma_lacking_empty(a, b);
        lemma_lacking_empty(b, a);
    }
}

/// Where `b` lacks nothing of `a` and each entry of `a` occurs as often in
/// both, the two hold the same multiset.
proof fn lemma_counts_agree_same(a: Seq<EntryKey>, b: Seq<EntryKey>)
    requires
        lacking(b, a).len() == 0,
        forall|k: int| 0 <= k < a.len() ==> count_of(a, #[trigger] a[k]) == count_of(b, a[k]),
    ensures
        same_multiset(a, b),
{
    lemma_lacking_empty(b, a);
    assert forall|x: EntryKey| count_of(a, x) == count_of(b, x) by {
        lemma_count_contains(a, x);
        lemma_count_contains(b, x);
        if a.contains(x) {
            let k = choose|k: int| 0 <= k < a.len() && a[k] == x;
            assert(count_of(a, a[k]) == count_of(b, a[k]));
        } else if b.contains(x) {
            let k = choose|k: int| 0 <= k < b.len() && b[k] == x;
            assert(a.contains(b[k]));
        }
    }
}

// ---------------------------------------------------------------- reports

/// The failure of a comparison, as a message.
#[derive(Debug)]
pub struct CompareError {
    pub details: String,
}

impl CompareError {
    /// An error with the message `msg`.
    pub fn new(msg: &str) -> (r: CompareError)
        ensures
            r.details@ == msg@,
    {
        CompareError { details: msg.to_owned() }
    }
}

/// The message for a mismatch of kind `k` over `n` entries.
pub open spec fn mismatch_text(k: MismatchKind, n: nat) -> Seq<char> {
    match k {
        MismatchKind::Missing => decimal_text(n)
            + " commands from reference input are missing from test input"@,
        MismatchKind::Extra => decimal_text(n) + " commands in test input are not in the reference input"@,
        MismatchKind::Count => "reference and test inputs differ in number of commands."@,
    }
}

impl Mismatch {
    /// The message that reports this mismatch, with the number of entries
    /// that one input lacks: the missing ones for `Missing`, the extra ones
    /// for `Extra`.
    pub fn error(&self) -> (r: CompareError)
        ensures
            r.details@ == mismatch_text(
                self.kind,
                if self.kind == MismatchKind::Missing {
                    self.missing.len() as nat
                } else {
                    self.extra.len() as nat
                },
            ),
    {
        match self.kind {
            MismatchKind::Missing => {
                let mut msg = decimal(self.missing.len());
                msg.append(" commands from reference input are missing from test input");
                CompareError { details: msg }
            },
            MismatchKind::Extra => {
                let mut msg = decimal(self.extra.len());
                msg.append(" commands in test input are not in the reference input");
                CompareError { details: msg }
            },
            MismatchKind::Count => CompareError::new(
                "reference and test inputs differ in number of commands.",
            ),
        }
    }
}

// ---------------------------------------------------------------- laws

/// Counting an entry agrees with the multiset of a sequence.
pub proof fn lemma_count_multiset(s: Seq<EntryKey>, x: EntryKey)
    ensures
        count_of(s, x) == s.to_multiset().count(x),
    decreases s.len(),
{
    broadcast use vstd::seq_lib::group_to_multiset_ensures;

    if s.len() == 0 {
        assert(s.to_multiset() =~= Multiset::empty());
    } else {
        lemma_count_multiset(s.drop_last(), x);
        assert(s.drop_last().push(s.last()) =~= s);
    }
}

/// A database compared with a reordering of itself shows no mismatch.
pub proof fn lemma_reordering_matches(a: Seq<EntryKey>, b: Seq<EntryKey>)
    requires
        a.to_multiset() == b.to_multiset(),
    ensures
        compare_spec(a, b) is None,
{
    assert forall|x: EntryKey| count_of(a, x) == count_of(b, x) by {
        lemma_count_multiset(a, x);
        lemma_count_multiset(b, x);
    }
    lemma_same_multiset_no_lacking(a, b);
}

/// A database compared with itself plus a second copy of one of its
/// entries shows a mismatch in counts, though both hold the same entries.
pub proof fn lemma_duplicate_mismatches(a: Seq<EntryKey>, x: EntryKey)
    requires
        a.contains(x),
    ensures
        compare_spec(a, a.push(x)) == Some(
            (MismatchKind::Count, Seq::<EntryKey>::empty(), Seq::<EntryKey>::empty()),
        ),
{
    let b = a.push(x);
    assert forall|k: int| 0 <= k < a.len() implies b.contains(#[trigger] a[k]) by {
        assert(b[k] == a[k]);
    }
    assert forall|k: int| 0 <= k < b.len() implies a.contains(#[trigger] b[k]) by {
        if k < a.len() {
            assert(b[k] == a[k]);
        }
    }
    lemma_lacking_empty(a, b);
    lemma_lacking_empty(b, a);
    assert(b.drop_last() =~= a);
    assert(count_of(b, x) == count_of(a, x) + 1);
}

} // verus!
