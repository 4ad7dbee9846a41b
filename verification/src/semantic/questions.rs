//! The questions to the module resolver that a search asks.

use crate::collections;
use crate::collections::PairSet;
use crate::paths::tidy;
use crate::profiler;
use crate::profiler::{is_tally, nothing, Profiler, Tally};
use crate::semantic::analyzer::WorkspaceAnalyzer;
use crate::semantic::edges::{reexport_requests, ImportEdge, ImportEdgeView};
use crate::text;
use crate::text::Text;
use crate::types::{Export, ExportView, Import, ImportView};
use vstd::prelude::*;

verus! {

/// A question: a file, and a module that it names.
pub type Question = (Text, Text);

// ---------------------------------------------------------------------------
// What is asked
// ---------------------------------------------------------------------------

/// The questions of a file about its re-exports of a symbol.
pub open spec fn questions_on_symbol(file: Text, exports: Seq<ExportView>, symbol: Text) -> Seq<
    Question,
>
    decreases exports.len(),
{
    if exports.len() == 0 {
        Seq::empty()
    } else {
        let before = questions_on_symbol(file, exports.drop_last(), symbol);
        let e = exports.last();
        if e.exported_name == symbol || e.local_name == Some(symbol) {
            match e.re_export_from {
                Some(module) => before.push((file, module)),
                None => before,
            }
        } else {
            before
        }
    }
}

/// The questions of some files about all their re-exports.
pub open spec fn questions_of_files(a: WorkspaceAnalyzer, files: Seq<Text>) -> Seq<Question>
    decreases files.len(),
{
    if files.len() == 0 {
        Seq::empty()
    } else {
        questions_of_files(a, files.drop_last()) + reexport_requests(
            files.last(),
            a.exports_of(files.last()),
        )
    }
}

/// The questions that the visit of a symbol asks: about its re-exports in its own file, and then
/// about all re-exports of the workspace, for they may lead to the file.
pub open spec fn questions_of(a: WorkspaceAnalyzer, s: (Text, Text)) -> Seq<Question> {
    questions_on_symbol(s.0, a.exports_of(s.0), s.1) + questions_of_files(a, a.order())
}

/// The questions that the visits of some symbols ask.
pub open spec fn questions_of_all(a: WorkspaceAnalyzer, symbols: Seq<(Text, Text)>) -> Seq<Question>
    decreases symbols.len(),
{
    if symbols.len() == 0 {
        Seq::empty()
    } else {
        questions_of_all(a, symbols.drop_last()) + questions_of(a, symbols.last())
    }
}

/// One of the edges is that of an import of the module in the file.
pub open spec fn is_edge_of(edges: Seq<ImportEdgeView>, file: Text, module: Text) -> bool {
    exists|i: int|
        0 <= i < edges.len() && (#[trigger] edges[i]).importing_file == file && edges[i].from_module
            == module
}

/// The questions of a file about its imports, up to the first that one of the edges is of.
pub open spec fn questions_until(
    edges: Seq<ImportEdgeView>,
    file: Text,
    imports: Seq<ImportView>,
) -> Seq<Question>
    decreases imports.len(),
{
    if imports.len() == 0 {
        Seq::empty()
    } else {
        let first = seq![(file, imports[0].from_module)];
        if is_edge_of(edges, file, imports[0].from_module) {
            first
        } else {
            first + questions_until(edges, file, imports.drop_first())
        }
    }
}

/// The questions of some files about their imports, in each up to the first that one of the edges is
/// of.
pub open spec fn questions_on_imports(
    a: WorkspaceAnalyzer,
    edges: Seq<ImportEdgeView>,
    files: Seq<Text>,
) -> Seq<Question>
    decreases files.len(),
{
    if files.len() == 0 {
        Seq::empty()
    } else {
        questions_on_imports(a, edges, files.drop_last()) + questions_until(
            edges,
            files.last(),
            a.imports_of(files.last()),
        )
    }
}

/// The questions with an answer once some more have been asked, each once.
pub open spec fn answered(known: Seq<Question>, asked: Seq<Question>) -> Seq<Question>
    decreases asked.len(),
{
    if asked.len() == 0 {
        known
    } else {
        let before = answered(known, asked.drop_last());
        if before.contains(asked.last()) {
            before
        } else {
            before.push(asked.last())
        }
    }
}

/// How many of some questions have an answer by the time they are asked.
pub open spec fn repeated(known: Seq<Question>, asked: Seq<Question>) -> nat
    decreases asked.len(),
{
    if asked.len() == 0 {
        0
    } else {
        let init = asked.drop_last();
        repeated(known, init) + if answered(known, init).contains(asked.last()) {
            1nat
        } else {
            0nat
        }
    }
}

/// The tally of some questions: a resolution for each, a hit where the answer is known.
pub open spec fn question_tally(known: Seq<Question>, asked: Seq<Question>) -> Tally {
    Tally { resolutions: asked.len(), hits: repeated(known, asked), ..nothing() }
}

/// Asking some questions and then others.
proof fn lemma_ask_on(known: Seq<Question>, x: Seq<Question>, y: Seq<Question>)
    ensures
        answered(known, x + y) == answered(answered(known, x), y),
        repeated(known, x + y) == repeated(known, x) + repeated(answered(known, x), y),
    decreases y.len(),
{
    if y.len() == 0 {
        assert(x + y =~= x);
    } else {
        lemma_ask_on(known, x, y.drop_last());
        assert((x + y).drop_last() =~= x + y.drop_last());
        assert((x + y).last() == y.last());
    }
}

/// What has been asked has an answer, and so has what had one before.
proof fn lemma_answered_holds(known: Seq<Question>, asked: Seq<Question>, q: Question)
    requires
        known.contains(q) || asked.contains(q),
    ensures
        answered(known, asked).contains(q),
    decreases asked.len(),
{
    if asked.len() > 0 {
        let init = asked.drop_last();
        let before = answered(known, init);
        collections::lemma_push_contains(before, asked.last(), q);
        collections::lemma_push_contains(init, asked.last(), q);
        assert(init.push(asked.last()) =~= asked);
        if known.contains(q) || init.contains(q) {
            lemma_answered_holds(known, init, q);
        }
    }
}

/// Questions that all have an answer add nothing.
proof fn lemma_all_answered(known: Seq<Question>, asked: Seq<Question>)
    requires
        forall|i: int| 0 <= i < asked.len() ==> known.contains(#[trigger] asked[i]),
    ensures
        answered(known, asked) == known,
        repeated(known, asked) == asked.len(),
    decreases asked.len(),
{
    if asked.len() > 0 {
        let init = asked.drop_last();
        assert forall|i: int| 0 <= i < init.len() implies known.contains(#[trigger] init[i]) by {
            assert(init[i] == asked[i]);
        }
        lemma_all_answered(known, init);
        assert(known.contains(asked[asked.len() - 1]));
    }
}

/// What has been asked once is known from then on: asked again, every question is a hit.
pub proof fn lemma_asked_again(known: Seq<Question>, asked: Seq<Question>)
    ensures
        answered(answered(known, asked), asked) == answered(known, asked),
        repeated(answered(known, asked), asked) == asked.len(),
{
    let after = answered(known, asked);
    assert forall|i: int| 0 <= i < asked.len() implies after.contains(#[trigger] asked[i]) by {
        lemma_answered_holds(known, asked, asked[i]);
    }
    lemma_all_answered(after, asked);
}

// ---------------------------------------------------------------------------
// Asking
// ---------------------------------------------------------------------------

/// Asks some questions, with a tally.
fn ask(known: PairSet, questions: &Vec<(String, String)>, profiler: &mut Profiler) -> (r: PairSet)
    ensures
        r@ == answered(known@, questions.deep_view()),
        is_tally(
            *old(profiler),
            *final(profiler),
            question_tally(known@, questions.deep_view()),
        ),
{
    let ghost all = questions.deep_view();
    let ghost first = known@;
    let ghost idle = *profiler;
    let mut known = known;
    let mut i: usize = 0;
    proof {
        profiler::lemma_no_tally(idle);
        assert(all.take(0) =~= Seq::<Question>::empty());
        assert(all.len() == questions.len());
    }
    while i < questions.len()
        invariant
            i <= questions.len(),
            all == questions.deep_view(),
            all.len() == questions.len(),
            known@ == answered(first, all.take(i as int)),
            is_tally(idle, *profiler, question_tally(first, all.take(i as int))),
        decreases questions.len() - i,
    {
        let ghost counted = *profiler;
        proof {
            assert(all.take(i + 1).drop_last() =~= all.take(i as int));
            assert(all.take(i + 1).last() == (questions@[i as int].0@, questions@[i as int].1@));
        }
        let start = profiler.start();
        let (after, fresh) = known.with(questions[i].0.as_str(), questions[i].1.as_str());
        known = after;
        profiler.tally_resolution(!fresh, start);
        proof {
            profiler::lemma_tally_on(
                idle,
                counted,
                *profiler,
                question_tally(first, all.take(i as int)),
                Tally {
                    resolutions: 1,
                    hits: if fresh {
                        0
                    } else {
                        1
                    },
                    ..nothing()
                },
            );
        }
        i += 1;
    }
    assert(all.take(i as int) =~= all);
    known
}

/// The questions of a file about its re-exports of a symbol.
fn find_questions_on_symbol(file: &str, exports: &Vec<Export>, symbol: &str) -> (r: Vec<
    (String, String),
>)
    ensures
        r.deep_view() == questions_on_symbol(file@, exports.deep_view(), symbol@),
{
    let ghost all = exports.deep_view();
    let mut out: Vec<(String, String)> = Vec::new();
    let mut i: usize = 0;
    assert(all.take(0) =~= Seq::<ExportView>::empty());
    assert(out.deep_view() =~= Seq::<Question>::empty());
    while i < exports.len()
        invariant
            i <= exports.len(),
            all == exports.deep_view(),
            out.deep_view() == questions_on_symbol(file@, all.take(i as int), symbol@),
        decreases exports.len() - i,
    {
        let ghost before = out.deep_view();
        let e = &exports[i];
        proof {
            assert(all.take(i + 1).drop_last() =~= all.take(i as int));
            assert(all.take(i + 1).last() == e.deep_view());
        }
        let named = text::same(e.exported_name.as_str(), symbol) || match &e.local_name {
            Some(local) => text::same(local.as_str(), symbol),
            None => false,
        };
        if named {
            if let Some(module) = &e.re_export_from {
                out.push((file.to_owned(), module.clone()));
                assert(out.deep_view() =~= before.push((file@, module@)));
            }
        }
        i += 1;
    }
    assert(all.take(i as int) =~= all);
    out
}

/// Appends the questions of a file about all its re-exports.
fn push_questions(file: &str, exports: &Vec<Export>, out: &mut Vec<(String, String)>)
    ensures
        final(out).deep_view() == old(out).deep_view() + reexport_requests(
            file@,
            exports.deep_view(),
        ),
{
    let ghost all = exports.deep_view();
    let ghost first = out.deep_view();
    let mut i: usize = 0;
    assert(all.take(0) =~= Seq::<ExportView>::empty());
    assert(out.deep_view() =~= first + Seq::<Question>::empty());
    while i < exports.len()
        invariant
            i <= exports.len(),
            all == exports.deep_view(),
            out.deep_view() == first + reexport_requests(file@, all.take(i as int)),
        decreases exports.len() - i,
    {
        let ghost before = out.deep_view();
        let ghost done = reexport_requests(file@, all.take(i as int));
        proof {
            assert(all.take(i + 1).drop_last() =~= all.take(i as int));
            assert(all.take(i + 1).last() == exports@[i as int].deep_view());
        }
        if let Some(module) = &exports[i].re_export_from {
            out.push((file.to_owned(), module.clone()));
            assert(out.deep_view() =~= before.push((file@, module@)));
            assert(out.deep_view() =~= first + done.push((file@, module@)));
        }
        i += 1;
    }
    assert(all.take(i as int) =~= all);
}

/// The questions of all files about all their re-exports.
fn find_questions_of_files(a: &WorkspaceAnalyzer) -> (r: Vec<(String, String)>)
    ensures
        r.deep_view() == questions_of_files(*a, a.order()),
{
    let ghost all = a.order();
    let mut out: Vec<(String, String)> = Vec::new();
    let mut i: usize = 0;
    assert(all.take(0) =~= Seq::<Text>::empty());
    assert(out.deep_view() =~= Seq::<Question>::empty());
    while i < a.count()
        invariant
            i <= all.len(),
            all == a.order(),
            out.deep_view() == questions_of_files(*a, all.take(i as int)),
        decreases all.len() - i,
    {
        let ghost before = out.deep_view();
        let file = a.path_at(i);
        proof {
            assert(all.take(i + 1).drop_last() =~= all.take(i as int));
            assert(all.take(i + 1).last() == file@);
        }
        match a.exports(file) {
            Some(exports) => push_questions(file, exports, &mut out),
            None => {
                assert(before + reexport_requests(file@, Seq::empty()) =~= before);
            },
        }
        i += 1;
    }
    assert(all.take(i as int) =~= all);
    out
}

/// Asks what the visits of some symbols ask, with a tally.
pub(crate) fn ask_all(
    a: &WorkspaceAnalyzer,
    symbols: &PairSet,
    known: PairSet,
    profiler: &mut Profiler,
) -> (r: PairSet)
    ensures
        r@ == answered(known@, questions_of_all(*a, symbols@)),
        is_tally(
            *old(profiler),
            *final(profiler),
            question_tally(known@, questions_of_all(*a, symbols@)),
        ),
{
    let ghost all = symbols@;
    let ghost first = known@;
    let ghost idle = *profiler;
    let everywhere = find_questions_of_files(a);
    let mut known = known;
    let mut i: usize = 0;
    proof {
        profiler::lemma_no_tally(idle);
        assert(all.take(0) =~= Seq::<(Text, Text)>::empty());
    }
    while i < symbols.len()
        invariant
            i <= all.len(),
            all == symbols@,
            everywhere.deep_view() == questions_of_files(*a, a.order()),
            known@ == answered(first, questions_of_all(*a, all.take(i as int))),
            is_tally(
                idle,
                *profiler,
                question_tally(first, questions_of_all(*a, all.take(i as int))),
            ),
        decreases all.len() - i,
    {
        let ghost done = questions_of_all(*a, all.take(i as int));
        let ghost here = known@;
        let ghost counted = *profiler;
        let (file, symbol) = symbols.at(i);
        let own = match a.exports(file) {
            Some(exports) => find_questions_on_symbol(file, exports, symbol),
            None => {
                let none: Vec<(String, String)> = Vec::new();
                assert(none.deep_view() =~= Seq::<Question>::empty());
                none
            },
        };
        let ghost x = own.deep_view();
        let ghost y = everywhere.deep_view();
        known = ask(known, &own, profiler);
        let ghost half = *profiler;
        known = ask(known, &everywhere, profiler);
        proof {
            assert(all.take(i + 1).drop_last() =~= all.take(i as int));
            assert(all.take(i + 1).last() == (file@, symbol@));
            assert(x == questions_on_symbol(file@, a.exports_of(file@), symbol@));
            assert(questions_of_all(*a, all.take(i + 1)) == done + (x + y));
            lemma_ask_on(here, x, y);
            lemma_ask_on(first, done, x + y);
            profiler::lemma_tally_on(
                counted,
                half,
                *profiler,
                question_tally(here, x),
                question_tally(answered(here, x), y),
            );
            profiler::lemma_tally_on(
                idle,
                counted,
                *profiler,
                question_tally(first, done),
                question_tally(here, x + y),
            );
        }
        i += 1;
    }
    assert(all.take(i as int) =~= all);
    known
}

/// Whether one of the edges is that of an import of the module in the file.
fn has_edge_of(edges: &Vec<ImportEdge>, file: &str, module: &str) -> (r: bool)
    ensures
        r == is_edge_of(edges.deep_view(), file@, module@),
{
    let ghost all = edges.deep_view();
    let mut i: usize = 0;
    while i < edges.len()
        invariant
            i <= edges.len(),
            all == edges.deep_view(),
            forall|j: int|
                0 <= j < i ==> !((#[trigger] all[j]).importing_file == file@ && all[j].from_module
                    == module@),
        decreases edges.len() - i,
    {
        assert(all[i as int] == edges@[i as int].deep_view());
        if text::same(edges[i].importing_file.as_str(), file) && text::same(
            edges[i].from_module.as_str(),
            module,
        ) {
            return true;
        }
        i += 1;
    }
    false
}

/// Appends the questions of a file about its imports, up to the first that one of the edges is of.
fn push_questions_until(
    edges: &Vec<ImportEdge>,
    file: &str,
    imports: &Vec<Import>,
    out: &mut Vec<(String, String)>,
)
    ensures
        final(out).deep_view() == old(out).deep_view() + questions_until(
            edges.deep_view(),
            file@,
            imports.deep_view(),
        ),
{
    let ghost all = imports.deep_view();
    let ghost view = edges.deep_view();
    let ghost whole = out.deep_view() + questions_until(view, file@, all);
    let mut i: usize = 0;
    assert(all.skip(0) =~= all);
    while i < imports.len()
        invariant
            i <= imports.len(),
            all == imports.deep_view(),
            view == edges.deep_view(),
            whole == old(out).deep_view() + questions_until(view, file@, all),
            whole == out.deep_view() + questions_until(view, file@, all.skip(i as int)),
        decreases imports.len() - i,
    {
        let ghost before = out.deep_view();
        let ghost rest = all.skip(i as int);
        let module = imports[i].from_module.as_str();
        let ghost question = (file@, module@);
        proof {
            assert(rest[0] == imports@[i as int].deep_view());
            assert(rest.drop_first() =~= all.skip(i + 1));
        }
        let found = has_edge_of(edges, file, module);
        out.push((file.to_owned(), module.to_owned()));
        assert(out.deep_view() =~= before.push(question));
        if found {
            assert(out.deep_view() =~= whole);
            return;
        }
        assert(whole =~= out.deep_view() + questions_until(view, file@, all.skip(i + 1)));
        i += 1;
    }
    assert(all.skip(i as int) =~= Seq::<ImportView>::empty());
    assert(out.deep_view() =~= whole);
}

/// Asks what all files ask about their imports, in each up to the first that one of the edges is of,
/// with a tally.
pub(crate) fn ask_on_imports(
    a: &WorkspaceAnalyzer,
    edges: &Vec<ImportEdge>,
    known: PairSet,
    profiler: &mut Profiler,
) -> (r: PairSet)
    ensures
        r@ == answered(known@, questions_on_imports(*a, edges.deep_view(), a.order())),
        is_tally(
            *old(profiler),
            *final(profiler),
            question_tally(known@, questions_on_imports(*a, edges.deep_view(), a.order())),
        ),
{
    a.check();
    let ghost all = a.order();
    let ghost view = edges.deep_view();
    let mut questions: Vec<(String, String)> = Vec::new();
    let mut i: usize = 0;
    assert(all.take(0) =~= Seq::<Text>::empty());
    assert(questions.deep_view() =~= Seq::<Question>::empty());
    while i < a.count()
        invariant
            i <= all.len(),
            all == a.order(),
            view == edges.deep_view(),
            forall|f: Text| a.sources().contains_key(f) <==> #[trigger] all.contains(f),
            forall|f: Text| #[trigger] all.contains(f) ==> tidy(f) == f,
            questions.deep_view() == questions_on_imports(*a, view, all.take(i as int)),
        decreases all.len() - i,
    {
        let file = a.path_at(i);
        proof {
            assert(all.take(i + 1).drop_last() =~= all.take(i as int));
            assert(all.take(i + 1).last() == file@);
            assert(all.contains(all[i as int]));
        }
        if let Some(imports) = a.imports(file) {
            push_questions_until(edges, file, imports, &mut questions);
        }
        i += 1;
    }
    assert(all.take(i as int) =~= all);
    ask(known, &questions, profiler)
}

} // verus!
