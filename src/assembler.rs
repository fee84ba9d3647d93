//! The assembler: source lines to instructions, with labels resolved in
//! either direction and every rejected line reported.

use vstd::prelude::*;
use vstd::string::*;
use crate::instruction::{kw_djnz, Instruction};
use crate::labels::LabelTable;
use crate::parser::{classify, classify_line, Line, LineModel};
use crate::text::trimmed;

verus! {

/// A rejected source line: its 1-based number and its text as written.
pub struct Diagnostic {
    pub line_number: usize,
    pub text: String,
}

/// The outcome of assembling a program.
pub struct Assembly {
    /// The instructions, in source order.
    pub instructions: Vec<Instruction>,
    /// Each declared label and the index of the instruction that follows it.
    pub labels: LabelTable,
    /// The rejected lines, in source order.
    pub diagnostics: Vec<Diagnostic>,
}

/// An assembly seen as sequences and a map.
pub struct AssemblyModel {
    pub instructions: Seq<Instruction>,
    pub labels: Map<Seq<char>, usize>,
    pub diagnostics: Seq<(nat, Seq<char>)>,
}

/// A diagnostic as a line number and a text.
pub open spec fn diagnostic_model(d: Diagnostic) -> (nat, Seq<char>) {
    (d.line_number as nat, d.text@)
}

impl View for Assembly {
    type V = AssemblyModel;

    open spec fn view(&self) -> AssemblyModel {
        AssemblyModel {
            instructions: self.instructions@,
            labels: self.labels@,
            diagnostics: self.diagnostics@.map_values(|d: Diagnostic| diagnostic_model(d)),
        }
    }
}

/// The texts of a program's lines.
pub open spec fn line_texts(lines: Seq<&str>) -> Seq<Seq<char>> {
    lines.map_values(|l: &str| l@)
}

/// One pass over `lines`, in order, with jumps resolved against `targets`.
/// An instruction line appends its instruction; a declaration records the
/// name at the number of instructions so far; a blank line does nothing; any
/// other line is reported with its number and text.
pub open spec fn pass_model(lines: Seq<Seq<char>>, targets: Map<Seq<char>, usize>) -> AssemblyModel
    decreases lines.len(),
{
    if lines.len() == 0 {
        AssemblyModel {
            instructions: Seq::empty(),
            labels: Map::empty(),
            diagnostics: Seq::empty(),
        }
    } else {
        let prev = pass_model(lines.drop_last(), targets);
        let text = lines.last();
        match classify(trimmed(text), prev.labels, targets) {
            LineModel::Instruction(i) => AssemblyModel {
                instructions: prev.instructions.push(i),
                ..prev
            },
            LineModel::Label(name) => AssemblyModel {
                labels: prev.labels.insert(name, prev.instructions.len() as usize),
                ..prev
            },
            LineModel::Empty => prev,
            LineModel::ParseError => AssemblyModel {
                diagnostics: prev.diagnostics.push((lines.len(), text)),
                ..prev
            },
        }
    }
}

/// The assembled program: a first pass finds which names are declared, a
/// second finds where each points, and a third resolves every jump against
/// those places.
pub open spec fn assembled(lines: Seq<Seq<char>>) -> AssemblyModel {
    let names = pass_model(lines, Map::empty()).labels;
    let places = pass_model(lines, names).labels;
    pass_model(lines, places)
}

/// Whether every jump's target is an index into `instrs` or one past its end.
pub open spec fn jumps_in_range(instrs: Seq<Instruction>) -> bool {
    forall|i: int|
        0 <= i < instrs.len() ==> (#[trigger] instrs[i] is Djnz ==> instrs[i]->index
            <= instrs.len())
}

/// Under two tables that declare the same names, a line is a declaration
/// of the same name or of none; under two target tables with the same names
/// too, it is classified alike but for a jump's index.
proof fn lemma_classify_by_names(
    t: Seq<char>,
    d1: Map<Seq<char>, usize>,
    d2: Map<Seq<char>, usize>,
    g1: Map<Seq<char>, usize>,
    g2: Map<Seq<char>, usize>,
)
    requires
        d1.dom() == d2.dom(),
    ensures
        ({
            let c1 = classify(t, d1, g1);
            let c2 = classify(t, d2, g2);
            &&& (c1 is Label) == (c2 is Label)
            &&& c1 is Label ==> c1->Label_0 == c2->Label_0
            &&& (c1 is Empty) == (c2 is Empty)
            &&& g1.dom() == g2.dom() ==> (c1 is Instruction) == (c2 is Instruction)
            &&& g1.dom() == g2.dom() ==> (c1 is ParseError) == (c2 is ParseError)
        }),
{
    assert(d1.contains_key(t.drop_last()) == d2.contains_key(t.drop_last()));
    assert(g1.contains_key(t.skip(5)) == g2.contains_key(t.skip(5)) <== g1.dom() == g2.dom());
}

/// A jump that a line resolves to points where `targets` says.
proof fn lemma_classify_jump(t: Seq<char>, d: Map<Seq<char>, usize>, g: Map<Seq<char>, usize>)
    ensures
        classify(t, d, g) matches LineModel::Instruction(Instruction::Djnz { index }) ==> g.contains_key(
            t.skip(5),
        ) && g[t.skip(5)] == index,
{
}

/// Which names a pass declares does not depend on the targets.
proof fn lemma_declared_names(
    lines: Seq<Seq<char>>,
    t1: Map<Seq<char>, usize>,
    t2: Map<Seq<char>, usize>,
)
    ensures
        pass_model(lines, t1).labels.dom() == pass_model(lines, t2).labels.dom(),
    decreases lines.len(),
{
    if lines.len() > 0 {
        lemma_declared_names(lines.drop_last(), t1, t2);
        let p1 = pass_model(lines.drop_last(), t1);
        let p2 = pass_model(lines.drop_last(), t2);
        lemma_classify_by_names(trimmed(lines.last()), p1.labels, p2.labels, t1, t2);
    }
}

/// Two target tables with the same names give the same pass, but for the
/// jumps' indices.
proof fn lemma_pass_by_names(
    lines: Seq<Seq<char>>,
    t1: Map<Seq<char>, usize>,
    t2: Map<Seq<char>, usize>,
)
    requires
        t1.dom() == t2.dom(),
    ensures
        pass_model(lines, t1).labels == pass_model(lines, t2).labels,
        pass_model(lines, t1).instructions.len() == pass_model(lines, t2).instructions.len(),
        pass_model(lines, t1).diagnostics == pass_model(lines, t2).diagnostics,
    decreases lines.len(),
{
    if lines.len() > 0 {
        lemma_pass_by_names(lines.drop_last(), t1, t2);
        let p1 = pass_model(lines.drop_last(), t1);
        let p2 = pass_model(lines.drop_last(), t2);
        lemma_classify_by_names(trimmed(lines.last()), p1.labels, p2.labels, t1, t2);
    }
}

/// A pass records each label at an index no larger than its instruction
/// count, which is no larger than the number of lines.
proof fn lemma_labels_bounded(lines: Seq<Seq<char>>, t: Map<Seq<char>, usize>)
    requires
        lines.len() <= usize::MAX,
    ensures
        pass_model(lines, t).instructions.len() <= lines.len(),
        forall|n: Seq<char>|
            #[trigger] pass_model(lines, t).labels.contains_key(n) ==> pass_model(
                lines,
                t,
            ).labels[n] <= pass_model(lines, t).instructions.len(),
    decreases lines.len(),
{
    if lines.len() > 0 {
        lemma_labels_bounded(lines.drop_last(), t);
    }
}

/// Every jump of a pass points where some entry of `targets` does.
proof fn lemma_jumps_from_targets(lines: Seq<Seq<char>>, t: Map<Seq<char>, usize>)
    ensures
        forall|i: int|
            0 <= i < pass_model(lines, t).instructions.len() && #[trigger] pass_model(
                lines,
                t,
            ).instructions[i] is Djnz ==> exists|n: Seq<char>|
                t.contains_key(n) && t[n] == pass_model(lines, t).instructions[i]->index,
    decreases lines.len(),
{
    if lines.len() > 0 {
        lemma_jumps_from_targets(lines.drop_last(), t);
        let prev = pass_model(lines.drop_last(), t);
        let tr = trimmed(lines.last());
        lemma_classify_jump(tr, prev.labels, t);
        let cur = pass_model(lines, t);
        assert forall|i: int|
            0 <= i < cur.instructions.len() && #[trigger] cur.instructions[i] is Djnz implies exists|
                n: Seq<char>,
            |
            t.contains_key(n) && t[n] == cur.instructions[i]->index by {
            if i < prev.instructions.len() {
                assert(cur.instructions[i] == prev.instructions[i]);
            } else {
                assert(t.contains_key(tr.skip(5)));
            }
        }
    }
}

/// The assembled program is one pass resolved against its own label table:
/// each jump points at the index that its label's declaration recorded,
/// wherever that declaration stands. Every jump lands on an instruction or
/// just past the last one.
pub proof fn lemma_assembled_resolves(lines: Seq<Seq<char>>)
    requires
        lines.len() <= usize::MAX,
    ensures
        assembled(lines) == pass_model(lines, assembled(lines).labels),
        jumps_in_range(assembled(lines).instructions),
{
    let names = pass_model(lines, Map::empty()).labels;
    let places = pass_model(lines, names).labels;
    lemma_declared_names(lines, Map::empty(), names);
    lemma_pass_by_names(lines, names, places);
    let a = assembled(lines);
    assert(a.labels == places);
    lemma_labels_bounded(lines, places);
    lemma_jumps_from_targets(lines, places);
    assert forall|i: int|
        0 <= i < a.instructions.len() && #[trigger] a.instructions[i] is Djnz implies a.instructions[i]->index
        <= a.instructions.len() by {
        let n = choose|n: Seq<char>| places.contains_key(n) && places[n] == a.instructions[i]->index;
        assert(places.contains_key(n));
    }
}

/// Whether `line`, trimmed, declares the label `name`, whatever else has been
/// declared.
pub open spec fn declares(line: Seq<char>, name: Seq<char>) -> bool {
    classify(trimmed(line), Map::empty(), Map::empty()) == LineModel::Label(name)
}

/// A declaration is one whatever the tables, and is refused exactly when its
/// name is declared already.
proof fn lemma_declaration_line(t: Seq<char>, d: Map<Seq<char>, usize>, g: Map<Seq<char>, usize>)
    ensures
        classify(t, d, g) is Label ==> classify(t, Map::empty(), Map::empty()) == classify(t, d, g),
        classify(t, Map::empty(), Map::empty()) is Label ==> classify(t, d, g) == (if d.contains_key(
            t.drop_last(),
        ) {
            LineModel::ParseError
        } else {
            classify(t, Map::empty(), Map::empty())
        }),
        classify(t, d, g) matches LineModel::Label(name) ==> !d.contains_key(name),
{
}

/// A later state of a pass extends an earlier one: instructions and
/// diagnostics are only appended to, and a recorded label keeps its index.
proof fn lemma_pass_prefix(lines: Seq<Seq<char>>, t: Map<Seq<char>, usize>, j: int)
    requires
        0 <= j <= lines.len(),
    ensures
        ({
            let p = pass_model(lines.take(j), t);
            let f = pass_model(lines, t);
            &&& p.instructions.len() <= f.instructions.len()
            &&& f.instructions.take(p.instructions.len() as int) == p.instructions
            &&& p.diagnostics.len() <= f.diagnostics.len()
            &&& f.diagnostics.take(p.diagnostics.len() as int) == p.diagnostics
            &&& forall|n: Seq<char>|
                #[trigger] p.labels.contains_key(n) ==> f.labels.contains_key(n) && f.labels[n]
                    == p.labels[n]
        }),
    decreases lines.len(),
{
    if j == lines.len() {
        assert(lines.take(j) =~= lines);
        let f = pass_model(lines, t);
        assert(f.instructions.take(f.instructions.len() as int) =~= f.instructions);
        assert(f.diagnostics.take(f.diagnostics.len() as int) =~= f.diagnostics);
    } else {
        lemma_pass_prefix(lines.drop_last(), t, j);
        assert(lines.drop_last().take(j) =~= lines.take(j));
        let p = pass_model(lines.take(j), t);
        let g = pass_model(lines.drop_last(), t);
        let f = pass_model(lines, t);
        lemma_declaration_line(trimmed(lines.last()), g.labels, t);
        assert(f.instructions.take(p.instructions.len() as int) =~= p.instructions);
        assert(f.diagnostics.take(p.diagnostics.len() as int) =~= p.diagnostics);
    }
}

/// A name that no line declares is never recorded.
proof fn lemma_undeclared(lines: Seq<Seq<char>>, t: Map<Seq<char>, usize>, name: Seq<char>)
    requires
        forall|j: int| 0 <= j < lines.len() ==> !declares(#[trigger] lines[j], name),
    ensures
        !pass_model(lines, t).labels.contains_key(name),
    decreases lines.len(),
{
    if lines.len() > 0 {
        lemma_undeclared(lines.drop_last(), t, name);
        let g = pass_model(lines.drop_last(), t);
        lemma_declaration_line(trimmed(lines.last()), g.labels, t);
        assert(!declares(lines[lines.len() - 1], name));
    }
}

/// The first declaration of a name records it at the number of instructions
/// before it.
proof fn lemma_first_declaration(
    lines: Seq<Seq<char>>,
    t: Map<Seq<char>, usize>,
    m: int,
    name: Seq<char>,
)
    requires
        0 <= m < lines.len(),
        declares(lines[m], name),
        forall|j: int| 0 <= j < m ==> !declares(#[trigger] lines[j], name),
    ensures
        pass_model(lines.take(m + 1), t).labels.contains_key(name),
        pass_model(lines.take(m + 1), t).labels[name] == pass_model(
            lines.take(m),
            t,
        ).instructions.len() as usize,
{
    let before = lines.take(m);
    assert forall|j: int| 0 <= j < before.len() implies !declares(#[trigger] before[j], name) by {
        assert(before[j] == lines[j]);
    }
    lemma_undeclared(before, t, name);
    assert(lines.take(m + 1).drop_last() =~= before);
    assert(lines.take(m + 1).last() == lines[m]);
    let tr = trimmed(lines[m]);
    lemma_declaration_line(tr, pass_model(before, t).labels, t);
}

/// What a `djnz` line does against a target table.
proof fn lemma_jump_line(t: Seq<char>, name: Seq<char>, d: Map<Seq<char>, usize>, g: Map<Seq<char>, usize>)
    requires
        t == kw_djnz() + name,
    ensures
        classify(t, d, g) == (if g.contains_key(name) {
            LineModel::Instruction(Instruction::Djnz { index: g[name] })
        } else {
            LineModel::ParseError
        }),
{
    assert(t[0] == 'd');
    assert(t.len() >= 5);
    assert(t.take(5) =~= kw_djnz());
    assert(t.skip(5) =~= name);
}

/// A jump may name a label declared on any line, after it as well as
/// before it: it assembles without a diagnostic into a jump to the index
/// that the label's first declaration recorded, the number of instructions
/// before that declaration.
pub proof fn lemma_forward_jump(lines: Seq<Seq<char>>, k: int, m: int, name: Seq<char>)
    requires
        lines.len() <= usize::MAX,
        0 <= k < lines.len(),
        0 <= m < lines.len(),
        trimmed(lines[k]) == kw_djnz() + name,
        declares(lines[m], name),
        forall|j: int| 0 <= j < m ==> !declares(#[trigger] lines[j], name),
    ensures
        ({
            let a = assembled(lines);
            let before = pass_model(lines.take(k), a.labels);
            let after = pass_model(lines.take(k + 1), a.labels);
            &&& a == pass_model(lines, a.labels)
            &&& a.labels.contains_key(name)
            &&& a.labels[name] as int == pass_model(lines.take(m), a.labels).instructions.len()
            &&& after.instructions == before.instructions.push(
                Instruction::Djnz { index: a.labels[name] },
            )
            &&& after.diagnostics == before.diagnostics
        }),
{
    lemma_assembled_resolves(lines);
    let a = assembled(lines);
    lemma_first_declaration(lines, a.labels, m, name);
    lemma_pass_prefix(lines, a.labels, m + 1);
    lemma_labels_bounded(lines.take(m), a.labels);
    let before = pass_model(lines.take(k), a.labels);
    assert(lines.take(k + 1).drop_last() =~= lines.take(k));
    assert(lines.take(k + 1).last() == lines[k]);
    lemma_jump_line(trimmed(lines[k]), name, before.labels, a.labels);
}

/// A second declaration of a name is reported and ignored: the name keeps
/// the index of its first declaration.
pub proof fn lemma_duplicate_label(lines: Seq<Seq<char>>, m1: int, m2: int, name: Seq<char>)
    requires
        lines.len() <= usize::MAX,
        0 <= m1 < m2 < lines.len(),
        declares(lines[m1], name),
        declares(lines[m2], name),
        forall|j: int| 0 <= j < m1 ==> !declares(#[trigger] lines[j], name),
    ensures
        ({
            let a = assembled(lines);
            &&& a.diagnostics.contains(((m2 + 1) as nat, lines[m2]))
            &&& a.labels.contains_key(name)
            &&& a.labels[name] as int == pass_model(lines.take(m1), a.labels).instructions.len()
        }),
{
    lemma_assembled_resolves(lines);
    let a = assembled(lines);
    let t = a.labels;
    lemma_first_declaration(lines, t, m1, name);
    lemma_pass_prefix(lines, t, m1 + 1);
    lemma_labels_bounded(lines.take(m1), t);
    lemma_pass_prefix(lines.take(m2), t, m1 + 1);
    assert(lines.take(m2).take(m1 + 1) =~= lines.take(m1 + 1));
    let before = pass_model(lines.take(m2), t);
    assert(before.labels.contains_key(name));
    assert(lines.take(m2 + 1).drop_last() =~= lines.take(m2));
    assert(lines.take(m2 + 1).last() == lines[m2]);
    lemma_declaration_line(trimmed(lines[m2]), before.labels, t);
    let after = pass_model(lines.take(m2 + 1), t);
    assert(after.diagnostics == before.diagnostics.push(((m2 + 1) as nat, lines[m2])));
    lemma_pass_prefix(lines, t, m2 + 1);
    let i = after.diagnostics.len() - 1;
    assert(a.diagnostics[i] == after.diagnostics[i]);
}

/// A jump to a name that no line declares is reported, adds no instruction,
/// and the rest of the program still assembles.
pub proof fn lemma_unknown_target(lines: Seq<Seq<char>>, k: int, name: Seq<char>)
    requires
        lines.len() <= usize::MAX,
        0 <= k < lines.len(),
        trimmed(lines[k]) == kw_djnz() + name,
        forall|j: int| 0 <= j < lines.len() ==> !declares(#[trigger] lines[j], name),
    ensures
        ({
            let a = assembled(lines);
            &&& !a.labels.contains_key(name)
            &&& a.diagnostics.contains(((k + 1) as nat, lines[k]))
            &&& pass_model(lines.take(k + 1), a.labels).instructions == pass_model(
                lines.take(k),
                a.labels,
            ).instructions
        }),
{
    lemma_assembled_resolves(lines);
    let a = assembled(lines);
    let t = a.labels;
    lemma_undeclared(lines, t, name);
    let before = pass_model(lines.take(k), t);
    assert(lines.take(k + 1).drop_last() =~= lines.take(k));
    assert(lines.take(k + 1).last() == lines[k]);
    lemma_jump_line(trimmed(lines[k]), name, before.labels, t);
    let after = pass_model(lines.take(k + 1), t);
    lemma_pass_prefix(lines, t, k + 1);
    let i = after.diagnostics.len() - 1;
    assert(a.diagnostics[i] == after.diagnostics[i]);
}

fn assemble_pass(lines: &[&str], targets: &LabelTable) -> (r: Assembly)
    ensures
        r@ == pass_model(line_texts(lines@), targets@),
{
    let ghost texts = line_texts(lines@);
    let mut instructions: Vec<Instruction> = Vec::new();
    let mut labels = LabelTable::new();
    let mut diagnostics: Vec<Diagnostic> = Vec::new();
    let mut i: usize = 0;
    assert(texts.take(0) =~= Seq::<Seq<char>>::empty());
    assert(diagnostics@.map_values(|d: Diagnostic| diagnostic_model(d)) =~= Seq::empty());
    while i < lines.len()
        invariant
            i <= lines@.len(),
            texts == line_texts(lines@),
            (Assembly { instructions, labels, diagnostics })@ == pass_model(
                texts.take(i as int),
                targets@,
            ),
        decreases lines@.len() - i,
    {
        let line: &str = lines[i];
        assert(texts.take(i + 1).drop_last() =~= texts.take(i as int));
        assert(texts.take(i + 1).last() == line@);
        let ghost before = diagnostics@;
        match classify_line(line, &labels, targets) {
            Line::Instruction(ins) => {
                instructions.push(ins);
            },
            Line::Label(name) => {
                labels.insert(name, instructions.len());
            },
            Line::Empty => {},
            Line::ParseError => {
                diagnostics.push(Diagnostic { line_number: i + 1, text: String::from_str(line) });
                assert(diagnostics@.map_values(|d: Diagnostic| diagnostic_model(d))
                    =~= before.map_values(|d: Diagnostic| diagnostic_model(d)).push(
                    ((i + 1) as nat, line@),
                ));
            },
        }
        i = i + 1;
    }
    assert(texts.take(i as int) =~= texts);
    Assembly { instructions, labels, diagnostics }
}

/// Assembles a program given as its lines.
pub fn assemble(lines: &[&str]) -> (r: Assembly)
    ensures
        r@ == assembled(line_texts(lines@)),
        r@ == pass_model(line_texts(lines@), r@.labels),
        jumps_in_range(r@.instructions),
{
    let n = lines.len();
    proof {
        assert(line_texts(lines@).len() == n);
        lemma_assembled_resolves(line_texts(lines@));
    }
    let first = assemble_pass(lines, &LabelTable::new());
    let second = assemble_pass(lines, &first.labels);
    assemble_pass(lines, &second.labels)
}

} // verus!
