//! What holds of every count of questions.

use crate::collections::lemma_push_contains;
use crate::paths::tidy;
use crate::semantic::analyzer::WorkspaceAnalyzer;
use crate::semantic::edges::{reexport_requests, ImportEdgeView};
use crate::semantic::lookup::importers_in;
use crate::semantic::questions::{
    answered, is_edge_of, question_tally, questions_of_all, questions_of_files,
    questions_on_imports, questions_on_symbol, questions_until, repeated,
};
use crate::semantic::reference_finder::{search_tally, searches_of_all};
use crate::text::Text;
use crate::types::{ExportView, ImportView};
use vstd::prelude::*;

verus! {

/// The export passes the symbol on from the module, under its name outside or inside.
pub open spec fn passes_on(e: ExportView, symbol: Text, module: Text) -> bool {
    e.re_export_from == Some(module) && (e.exported_name == symbol || e.local_name == Some(symbol))
}

/// The visit of a symbol asks for each module that its file passes the symbol on from.
pub proof fn lemma_questions_on_symbol(
    file: Text,
    exports: Seq<ExportView>,
    symbol: Text,
    q: (Text, Text),
)
    ensures
        questions_on_symbol(file, exports, symbol).contains(q) <==> q.0 == file && exists|i: int|
            0 <= i < exports.len() && passes_on(#[trigger] exports[i], symbol, q.1),
    decreases exports.len(),
{
    if exports.len() > 0 {
        let init = exports.drop_last();
        let n = exports.len() - 1;
        let last = exports.last();
        let before = questions_on_symbol(file, init, symbol);
        lemma_questions_on_symbol(file, init, symbol, q);
        assert(exports[n] == last);
        if let Some(module) = last.re_export_from {
            lemma_push_contains(before, (file, module), q);
        }
        if before.contains(q) {
            let i = choose|i: int| 0 <= i < init.len() && passes_on(#[trigger] init[i], symbol, q.1);
            assert(exports[i] == init[i]);
        }
        if exists|i: int| 0 <= i < exports.len() && passes_on(#[trigger] exports[i], symbol, q.1) {
            let i = choose|i: int|
                0 <= i < exports.len() && passes_on(#[trigger] exports[i], symbol, q.1);
            if i < n {
                assert(init[i] == exports[i]);
            }
        }
    }
}

/// The questions about the re-exports of some files are those of each.
pub proof fn lemma_questions_of_files(a: WorkspaceAnalyzer, files: Seq<Text>, file: Text)
    ensures
        questions_of_files(a, Seq::empty()).len() == 0,
        questions_of_files(a, files.push(file)) == questions_of_files(a, files) + reexport_requests(
            file,
            a.exports_of(file),
        ),
{
    assert(files.push(file).drop_last() =~= files);
}

/// The questions of some visits are those of each, one after another.
pub proof fn lemma_questions_of_all(
    a: WorkspaceAnalyzer,
    symbols: Seq<(Text, Text)>,
    s: (Text, Text),
)
    ensures
        questions_of_all(a, Seq::empty()).len() == 0,
        questions_of_all(a, symbols.push(s)) == questions_of_all(a, symbols) + (questions_on_symbol(
            s.0,
            a.exports_of(s.0),
            s.1,
        ) + questions_of_files(a, a.order())),
{
    assert(symbols.push(s).drop_last() =~= symbols);
}

/// An edge begins in the file with an import of the module.
pub open spec fn is_met(edges: Seq<ImportEdgeView>, file: Text, module: Text) -> bool {
    exists|i: int|
        0 <= i < edges.len() && (#[trigger] edges[i]).importing_file == file
            && edges[i].from_module == module
}

/// A file asks for its imports in order, and stops behind the first that an edge is of.
pub proof fn lemma_questions_until(
    edges: Seq<ImportEdgeView>,
    file: Text,
    imports: Seq<ImportView>,
    n: int,
)
    requires
        0 <= n <= imports.len(),
        forall|j: int| 0 <= j < n ==> !is_met(edges, file, (#[trigger] imports[j]).from_module),
        n < imports.len() ==> is_met(edges, file, imports[n].from_module),
    ensures
        questions_until(edges, file, imports).len() == if n < imports.len() {
            n + 1
        } else {
            n
        },
        forall|j: int|
            0 <= j < questions_until(edges, file, imports).len() ==> #[trigger] questions_until(
                edges,
                file,
                imports,
            )[j] == (file, imports[j].from_module),
    decreases imports.len(),
{
    if imports.len() > 0 {
        let rest = imports.drop_first();
        assert(is_edge_of(edges, file, imports[0].from_module) <==> is_met(
            edges,
            file,
            imports[0].from_module,
        ));
        if n > 0 {
            assert(!is_met(edges, file, imports[0].from_module));
            assert forall|j: int| 0 <= j < n - 1 implies !is_met(
                edges,
                file,
                (#[trigger] rest[j]).from_module,
            ) by {
                assert(rest[j] == imports[j + 1]);
            }
            if n < imports.len() {
                assert(rest[n - 1] == imports[n]);
            }
            lemma_questions_until(edges, file, rest, n - 1);
            let all = questions_until(edges, file, imports);
            let later = questions_until(edges, file, rest);
            assert(all == seq![(file, imports[0].from_module)] + later);
            assert forall|j: int| 0 <= j < all.len() implies #[trigger] all[j] == (
                file,
                imports[j].from_module,
            ) by {
                if j > 0 {
                    assert(all[j] == later[j - 1]);
                    assert(rest[j - 1] == imports[j]);
                }
            }
        }
    }
}

/// The questions about the imports of some files are those of each.
pub proof fn lemma_questions_on_imports(
    a: WorkspaceAnalyzer,
    edges: Seq<ImportEdgeView>,
    files: Seq<Text>,
    file: Text,
)
    ensures
        questions_on_imports(a, edges, Seq::empty()).len() == 0,
        questions_on_imports(a, edges, files.push(file)) == questions_on_imports(a, edges, files)
            + questions_until(edges, file, a.imports_of(file)),
{
    assert(files.push(file).drop_last() =~= files);
}

/// What has an answer in the end is what had one and what was asked.
pub proof fn lemma_answered(known: Seq<(Text, Text)>, asked: Seq<(Text, Text)>, q: (Text, Text))
    ensures
        answered(known, asked).contains(q) <==> known.contains(q) || asked.contains(q),
        known.no_duplicates() ==> answered(known, asked).no_duplicates(),
    decreases asked.len(),
{
    if asked.len() > 0 {
        let init = asked.drop_last();
        let last = asked.last();
        lemma_answered(known, init, q);
        assert(asked =~= init.push(last));
        lemma_push_contains(init, last, q);
        lemma_push_contains(answered(known, init), last, q);
    }
}

/// A question is a hit where it had an answer before or was asked before; each other one adds an
/// answer.
pub proof fn lemma_repeated(known: Seq<(Text, Text)>, asked: Seq<(Text, Text)>, q: (Text, Text))
    ensures
        repeated(known, Seq::empty()) == 0,
        known.contains(q) || asked.contains(q) ==> repeated(known, asked.push(q)) == repeated(
            known,
            asked,
        ) + 1,
        !known.contains(q) && !asked.contains(q) ==> repeated(known, asked.push(q)) == repeated(
            known,
            asked,
        ),
{
    assert(asked.push(q).drop_last() =~= asked);
    lemma_answered(known, asked, q);
}

/// The answers that are new and the hits are all the questions.
pub proof fn lemma_hits_and_answers(known: Seq<(Text, Text)>, asked: Seq<(Text, Text)>)
    ensures
        answered(known, asked).len() + repeated(known, asked) == known.len() + asked.len(),
    decreases asked.len(),
{
    if asked.len() > 0 {
        lemma_hits_and_answers(known, asked.drop_last());
    }
}

/// Each question counts as a resolution, each repeated one as a hit, and nothing else counts.
pub proof fn lemma_question_tally(known: Seq<(Text, Text)>, asked: Seq<(Text, Text)>)
    ensures
        question_tally(known, asked).resolutions == asked.len(),
        question_tally(known, asked).hits == repeated(known, asked),
        question_tally(known, asked).lookups == 0,
        question_tally(known, asked).searches == 0,
        question_tally(known, asked).extractions == 0,
{
}

/// A search counts a lookup for each symbol that it visits, a search for each import of it, and the
/// questions.
pub proof fn lemma_search_tally(
    a: WorkspaceAnalyzer,
    known: Seq<(Text, Text)>,
    symbols: Seq<(Text, Text)>,
    s: (Text, Text),
)
    ensures
        search_tally(a, known, symbols).lookups == symbols.len(),
        search_tally(a, known, symbols).resolutions == questions_of_all(a, symbols).len(),
        search_tally(a, known, symbols).hits == repeated(known, questions_of_all(a, symbols)),
        search_tally(a, known, symbols).extractions == 0,
        search_tally(a, known, Seq::empty()).searches == 0,
        search_tally(a, known, symbols.push(s)).searches == search_tally(a, known, symbols).searches
            + importers_in(a.import_graph(), tidy(s.0), s.1).len(),
{
    assert(symbols.push(s).drop_last() =~= symbols);
    assert(symbols.push(s).last() == s);
    assert(searches_of_all(a, symbols.push(s)) == searches_of_all(a, symbols) + importers_in(
        a.import_graph(),
        tidy(s.0),
        s.1,
    ).len());
}

} // verus!
