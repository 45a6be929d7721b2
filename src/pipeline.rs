//! From the lines of trace logs to the compiler invocations that compile.

use vstd::prelude::*;
use crate::exec::{Exec, ExecView};
use crate::parser::{parse_error_text, parseln, spec_line};
use crate::tools::cc::{
    build_spec, entry_spec, pairs_view, BuildView, EntryError,
};
use crate::tools::{tool_kind, Classifier, CompilerAction, ToolKind};

verus! {

/// Whether `t` is a C or C++ compiler that compiles.
pub open spec fn compiles(t: ToolKind) -> bool {
    t == ToolKind::CCompiler(CompilerAction::Compile) || t == ToolKind::CXXCompiler(
        CompilerAction::Compile,
    )
}

/// What one line contributes: its invocation with its kind, where the line
/// is an invocation record of a compiler that compiles. Lines that are no
/// record are passed over.
pub open spec fn select_line(l: Seq<char>) -> Seq<(ExecView, ToolKind)> {
    match spec_line(l) {
        Some(Some(e)) => if compiles(tool_kind(e.path, e.args)) {
            seq![(e, tool_kind(e.path, e.args))]
        } else {
            seq![]
        },
        _ => seq![],
    }
}

/// What the lines `ls` contribute, in order.
pub open spec fn select_lines(ls: Seq<Seq<char>>) -> Seq<(ExecView, ToolKind)>
    decreases ls.len(),
{
    if ls.len() == 0 {
        seq![]
    } else {
        select_lines(ls.drop_last()) + select_line(ls.last())
    }
}

/// The errors for the lines of `ls` that are no record, in order.
pub open spec fn line_errors(ls: Seq<Seq<char>>) -> Seq<Seq<char>>
    decreases ls.len(),
{
    if ls.len() == 0 {
        seq![]
    } else if spec_line(ls.last()) is None {
        line_errors(ls.drop_last()).push(parse_error_text(ls.last()))
    } else {
        line_errors(ls.drop_last())
    }
}

/// Lines as values.
pub open spec fn lines_view(ls: Seq<String>) -> Seq<Seq<char>> {
    ls.map_values(|l: String| l@)
}

/// What the lines of a trace log give: the invocations of compilers that
/// compile, with their kinds, and an error for each line that is no record.
pub struct Selection {
    pub invocations: Vec<(Exec, ToolKind)>,
    pub errors: Vec<String>,
}

/// The compiler invocations that compile, with their kinds, among the
/// records of `lines`, in order, and the errors for the lines that are no
/// record.
pub fn process_lines(lines: &Vec<String>) -> (r: Selection)
    ensures
        pairs_view(r.invocations@) == select_lines(lines_view(lines@)),
        forall|i: int|
            0 <= i < r.invocations.len() ==> compiles(#[trigger] r.invocations@[i].1),
        lines_view(r.errors@) == line_errors(lines_view(lines@)),
{
    let ghost lv = lines_view(lines@);
    let classifier = Classifier::new();
    let mut out: Vec<(Exec, ToolKind)> = Vec::new();
    let mut errors: Vec<String> = Vec::new();
    let mut i: usize = 0;
    while i < lines.len()
        invariant
            i <= lines.len(),
            lv == lines_view(lines@),
            classifier.wf(),
            pairs_view(out@) == select_lines(lv.take(i as int)),
            lines_view(errors@) == line_errors(lv.take(i as int)),
            forall|k: int| 0 <= k < out.len() ==> compiles(#[trigger] out@[k].1),
        decreases lines.len() - i,
    {
        assert(lv.take(i + 1).drop_last() =~= lv.take(i as int));
        assert(lv.take(i + 1).last() == lines@[i as int]@);
        let ghost before = pairs_view(out@);
        match parseln(lines[i].as_str()) {
            Ok(Some(e)) => {
                let t = classifier.tool_kind(&e);
                if t.is_compile() {
                    let ghost ev = e@;
                    out.push((e, t));
                    assert(pairs_view(out@) =~= before.push((ev, t)));
                    assert(pairs_view(out@) =~= before + select_line(lines@[i as int]@));
                } else {
                    assert(before + select_line(lines@[i as int]@) =~= before);
                }
            },
            Ok(None) => {
                assert(before + select_line(lines@[i as int]@) =~= before);
            },
            Err(msg) => {
                assert(before + select_line(lines@[i as int]@) =~= before);
                let ghost eb = lines_view(errors@);
                errors.push(msg);
                assert(lines_view(errors@) =~= eb.push(parse_error_text(lines@[i as int]@)));
            },
        }
        i = i + 1;
    }
    assert(lv.take(lines.len() as int) =~= lv);
    Selection { invocations: out, errors }
}

// ---------------------------------------------------------------- laws

/// The database of two runs of records, one after the other: the entries of
/// the first followed by those of the second.
pub open spec fn join(a: BuildView, b: BuildView) -> BuildView {
    match (a, b) {
        (Some((ea, ma)), Some((eb, mb))) => Some((ea + eb, ma + mb)),
        _ => None,
    }
}

/// Each record is read on its own: the lines of one log followed by those
/// of another contribute what the first contributes followed by what the
/// second does.
pub proof fn lemma_select_lines_append(a: Seq<Seq<char>>, b: Seq<Seq<char>>)
    ensures
        select_lines(a + b) == select_lines(a) + select_lines(b),
    decreases b.len(),
{
    if b.len() == 0 {
        assert(a + b =~= a);
        assert(select_lines(a) + select_lines(b) =~= select_lines(a));
    } else {
        lemma_select_lines_append(a, b.drop_last());
        assert((a + b).drop_last() =~= a + b.drop_last());
        assert((a + b).last() == b.last());
        assert(select_lines(a) + (select_lines(b.drop_last()) + select_line(b.last()))
            =~= (select_lines(a) + select_lines(b.drop_last())) + select_line(b.last()));
    }
}

/// Building from two runs of invocations, one after the other, gives the
/// entries of the first followed by those of the second.
pub proof fn lemma_build_append(a: Seq<(ExecView, ToolKind)>, b: Seq<(ExecView, ToolKind)>)
    ensures
        build_spec(a + b) == join(build_spec(a), build_spec(b)),
    decreases b.len(),
{
    if b.len() == 0 {
        assert(a + b =~= a);
        if let Some((ea, ma)) = build_spec(a) {
            assert(ea + seq![] =~= ea);
            assert(ma + seq![] =~= ma);
        }
    } else {
        lemma_build_append(a, b.drop_last());
        assert((a + b).drop_last() =~= a + b.drop_last());
        assert((a + b).last() == b.last());
        if let (Some((ea, ma)), Some((eb, mb))) = (build_spec(a), build_spec(b.drop_last())) {
            let x = b.last();
            match entry_spec(x.0, x.1) {
                Ok(Some(c)) => {
                    assert((ea + eb).push(c) =~= ea + eb.push(c));
                },
                Err(EntryError::MalformedInvocation) => {
                    assert((ma + mb).push(x.0) =~= ma + mb.push(x.0));
                },
                _ => {},
            }
        }
    }
}

/// The database of a set of trace logs, read in one order, is that of each
/// log joined in the same order: a run over unchanged logs gives the same
/// entries in the same order.
pub proof fn lemma_database_of_logs(a: Seq<Seq<char>>, b: Seq<Seq<char>>)
    ensures
        build_spec(select_lines(a + b)) == join(
            build_spec(select_lines(a)),
            build_spec(select_lines(b)),
        ),
{
    lemma_select_lines_append(a, b);
    lemma_build_append(select_lines(a), select_lines(b));
}

} // verus!
