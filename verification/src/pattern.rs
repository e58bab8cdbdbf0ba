//! What a compilation writes, apart from the temporary names: the pattern of
//! the assembly text, in which each place of a temporary name is marked with
//! the rank of the node that took it. The output of a compilation is its
//! pattern with the names filled in, so two compilations of one program
//! differ in nothing but those names.

use vstd::prelude::*;
use crate::assembler::AsmState;
use crate::ast::{node_count, program_node_count, Op, SpecNode};
use crate::compiler::{
    compile_state, emit_assign, emit_infix, emit_node, emit_print, emit_statements, is_quoted,
    literal_operand, temp_operand, Emitted,
};

verus! {

/// An operand, apart from the temporary names.
pub enum OperandPattern {
    /// A text that holds no temporary name.
    Fixed(Seq<char>),
    /// The reference to the temporary of the given rank.
    Temp(int),
}

/// A line of assembly text, apart from the temporary names.
pub enum LinePattern {
    /// A line that holds no temporary name.
    Fixed(Seq<char>),
    /// A line that holds the temporary name of rank `rank` between two
    /// texts.
    Temp { before: Seq<char>, rank: int, after: Seq<char> },
}

/// An assembly state, apart from the temporary names.
pub struct StatePattern {
    pub code: Seq<LinePattern>,
    pub data: Seq<LinePattern>,
    pub bss: Seq<LinePattern>,
    pub variables: Map<Seq<char>, OperandPattern>,
}

/// What the compilation of one node leaves behind, apart from the temporary
/// names.
pub struct EmittedPattern {
    pub state: StatePattern,
    pub operand: OperandPattern,
}

/// The operand that a pattern stands for once the names are known.
pub open spec fn fill_operand(o: OperandPattern, names: Seq<Seq<char>>) -> Seq<char> {
    match o {
        OperandPattern::Fixed(text) => text,
        OperandPattern::Temp(rank) => temp_operand(names[rank]),
    }
}

/// The line that a pattern stands for once the names are known.
pub open spec fn fill_line(l: LinePattern, names: Seq<Seq<char>>) -> Seq<char> {
    match l {
        LinePattern::Fixed(text) => text,
        LinePattern::Temp { before, rank, after } => before + names[rank] + after,
    }
}

/// The state that a pattern stands for once the names are known.
pub open spec fn fill_state(p: StatePattern, names: Seq<Seq<char>>) -> AsmState {
    AsmState {
        code: p.code.map_values(|l: LinePattern| fill_line(l, names)),
        data: p.data.map_values(|l: LinePattern| fill_line(l, names)),
        bss: p.bss.map_values(|l: LinePattern| fill_line(l, names)),
        variables: p.variables.map_values(|o: OperandPattern| fill_operand(o, names)),
    }
}

impl StatePattern {
    /// The pattern with no line and no substitution.
    pub open spec fn empty() -> StatePattern {
        StatePattern {
            code: Seq::empty(),
            data: Seq::empty(),
            bss: Seq::empty(),
            variables: Map::empty(),
        }
    }

    /// A label line.
    pub open spec fn label(self, name: Seq<char>) -> StatePattern {
        StatePattern { code: self.code.push(LinePattern::Fixed(name + ":"@)), ..self }
    }

    /// An instruction that holds no operand of the program.
    pub open spec fn inst(self, inst: Seq<char>) -> StatePattern {
        StatePattern { code: self.code.push(LinePattern::Fixed("  "@ + inst)), ..self }
    }

    /// An instruction that ends in an operand.
    pub open spec fn inst_with(self, inst: Seq<char>, o: OperandPattern) -> StatePattern {
        let line = match o {
            OperandPattern::Fixed(text) => LinePattern::Fixed("  "@ + (inst + text)),
            OperandPattern::Temp(rank) => LinePattern::Temp {
                before: "  "@ + (inst + "["@),
                rank,
                after: "]"@,
            },
        };
        StatePattern { code: self.code.push(line), ..self }
    }

    /// The instruction that stores a result in the temporary of the given
    /// rank.
    pub open spec fn store(self, rank: int) -> StatePattern {
        StatePattern {
            code: self.code.push(
                LinePattern::Temp { before: "  "@ + "mov ["@, rank, after: "], eax"@ },
            ),
            ..self
        }
    }

    /// The reservation of the temporary of the given rank.
    pub open spec fn define_byte(self, rank: int) -> StatePattern {
        StatePattern {
            bss: self.bss.push(LinePattern::Temp { before: "  "@, rank, after: " resb 1"@ }),
            ..self
        }
    }

    /// The binding of a name to an operand: an initialized byte for a quoted
    /// literal, a substitution for anything else. The reference to a
    /// temporary is never a quoted literal.
    pub open spec fn assign(self, name: Seq<char>, o: OperandPattern) -> StatePattern {
        match o {
            OperandPattern::Fixed(text) if is_quoted(text) => StatePattern {
                data: self.data.push(LinePattern::Fixed("  "@ + name + " db "@ + text)),
                ..self
            },
            _ => StatePattern { variables: self.variables.insert(name, o), ..self },
        }
    }

    /// The instructions of a binary operation whose result goes to the
    /// temporary of the given rank.
    pub open spec fn infix(self, lhs: OperandPattern, rhs: OperandPattern, op: Op, rank: int) -> StatePattern {
        let loaded = self.inst_with("mov ecx, "@, lhs).inst("sub ecx, '0'"@).inst_with(
            "mov edx, "@,
            rhs,
        ).inst("sub edx, '0'"@).inst("mov eax, ecx"@);
        let combined = match op {
            Op::Add => loaded.inst("add eax, edx"@),
            Op::Sub => loaded.inst("sub eax, edx"@),
        };
        combined.inst("add eax, '0'"@).store(rank)
    }

    /// The instructions of a print.
    pub open spec fn print(self, value: OperandPattern) -> StatePattern {
        self.inst_with("mov ecx, "@, value).inst("mov edx, 2"@).inst("mov ebx, 1"@).inst(
            "mov eax, 4"@,
        ).inst("int 0x80"@)
    }
}

/// The pattern of the compilation of one node whose temporary has rank `k`,
/// started from the pattern `p`.
pub open spec fn node_pattern(node: SpecNode, k: int, p: StatePattern) -> EmittedPattern
    decreases node,
{
    match node {
        SpecNode::Literal(v) => EmittedPattern {
            state: p,
            operand: OperandPattern::Fixed(literal_operand(v)),
        },
        SpecNode::Ident(name) => EmittedPattern {
            state: p,
            operand: if p.variables.contains_key(name) {
                p.variables[name]
            } else {
                OperandPattern::Fixed(name)
            },
        },
        SpecNode::Assign(name, value) => {
            let v = node_pattern(*value, k + 1, p);
            EmittedPattern {
                state: v.state.assign(name, v.operand).define_byte(k),
                operand: OperandPattern::Temp(k),
            }
        },
        SpecNode::Infix { lhs, rhs, op } => {
            let l = node_pattern(*lhs, k + 1, p);
            let r = node_pattern(*rhs, k + 1 + node_count(*lhs), l.state);
            EmittedPattern {
                state: r.state.infix(l.operand, r.operand, op, k).define_byte(k),
                operand: OperandPattern::Temp(k),
            }
        },
        SpecNode::Print(value) => {
            let v = node_pattern(*value, k + 1, p);
            EmittedPattern {
                state: v.state.print(v.operand).define_byte(k),
                operand: OperandPattern::Temp(k),
            }
        },
    }
}

/// The pattern after the first `n` statements of a program.
pub open spec fn statements_pattern(program: Seq<SpecNode>, p: StatePattern, n: int) -> StatePattern
    decreases n,
{
    if n <= 0 || n > program.len() {
        p
    } else {
        node_pattern(
            program[n - 1],
            program_node_count(program, n - 1) as int,
            statements_pattern(program, p, n - 1),
        ).state
    }
}

/// The pattern of a whole compilation that starts from the pattern `p`.
pub open spec fn compile_pattern(program: Seq<SpecNode>, p: StatePattern) -> StatePattern {
    statements_pattern(program, p.label("_start"@), program.len() as int).inst(
        "mov eax, 1"@,
    ).inst("int 0x80"@)
}

/// Filling in the names of a pattern with one more label gives the state
/// with that label.
pub proof fn lemma_fill_label(p: StatePattern, names: Seq<Seq<char>>, name: Seq<char>)
    ensures
        fill_state(p.label(name), names) == fill_state(p, names).label(name),
{
    assert(fill_state(p.label(name), names).code =~= fill_state(p, names).label(name).code);
}

/// Filling in the names of a pattern with one more instruction gives the
/// state with that instruction.
pub proof fn lemma_fill_inst(p: StatePattern, names: Seq<Seq<char>>, inst: Seq<char>)
    ensures
        fill_state(p.inst(inst), names) == fill_state(p, names).inst(inst),
{
    assert(fill_state(p.inst(inst), names).code =~= fill_state(p, names).inst(inst).code);
}

/// Filling in the names of a pattern with one more instruction on an operand
/// gives the state with that instruction on the operand filled in.
pub proof fn lemma_fill_inst_with(
    p: StatePattern,
    names: Seq<Seq<char>>,
    inst: Seq<char>,
    o: OperandPattern,
)
    ensures
        fill_state(p.inst_with(inst, o), names) == fill_state(p, names).inst(
            inst + fill_operand(o, names),
        ),
{
    let line = p.inst_with(inst, o).code.last();
    assert(fill_line(line, names) =~= "  "@ + (inst + fill_operand(o, names)));
    assert(fill_state(p.inst_with(inst, o), names).code =~= fill_state(p, names).inst(
        inst + fill_operand(o, names),
    ).code);
}

/// Filling in the names of a pattern with one more store gives the state
/// with the store to the temporary of that rank.
pub proof fn lemma_fill_store(p: StatePattern, names: Seq<Seq<char>>, rank: int)
    ensures
        fill_state(p.store(rank), names) == fill_state(p, names).inst(
            "mov ["@ + names[rank] + "], eax"@,
        ),
{
    let line = p.store(rank).code.last();
    assert(fill_line(line, names) =~= "  "@ + ("mov ["@ + names[rank] + "], eax"@));
    assert(fill_state(p.store(rank), names).code =~= fill_state(p, names).inst(
        "mov ["@ + names[rank] + "], eax"@,
    ).code);
}

/// Filling in the names of a pattern with one more reservation gives the
/// state with the reservation of the temporary of that rank.
pub proof fn lemma_fill_define_byte(p: StatePattern, names: Seq<Seq<char>>, rank: int)
    ensures
        fill_state(p.define_byte(rank), names) == fill_state(p, names).define_byte(names[rank]),
{
    assert(fill_state(p.define_byte(rank), names).bss =~= fill_state(p, names).define_byte(
        names[rank],
    ).bss);
}

/// Filling in the names of a pattern with one more binding gives the state
/// with the binding of the operand filled in.
pub proof fn lemma_fill_assign(
    p: StatePattern,
    names: Seq<Seq<char>>,
    name: Seq<char>,
    o: OperandPattern,
)
    ensures
        fill_state(p.assign(name, o), names) == emit_assign(
            fill_state(p, names),
            name,
            fill_operand(o, names),
        ),
{
    let s = fill_state(p, names);
    let value = fill_operand(o, names);
    match o {
        OperandPattern::Fixed(text) => {
            if is_quoted(text) {
                assert(fill_state(p.assign(name, o), names).data =~= s.declare_byte(
                    name,
                    value,
                ).data);
            } else {
                assert(fill_state(p.assign(name, o), names).variables =~= s.declare_comptime(
                    name,
                    value,
                ).variables);
            }
        },
        OperandPattern::Temp(rank) => {
            reveal_strlit("[");
            assert(value[0] == '[');
            assert(!is_quoted(value));
            assert(fill_state(p.assign(name, o), names).variables =~= s.declare_comptime(
                name,
                value,
            ).variables);
        },
    }
}

/// Filling in the names of the pattern of a binary operation gives the
/// state after that operation on the operands filled in.
pub proof fn lemma_fill_infix(
    p: StatePattern,
    names: Seq<Seq<char>>,
    lhs: OperandPattern,
    rhs: OperandPattern,
    op: Op,
    rank: int,
)
    ensures
        fill_state(p.infix(lhs, rhs, op, rank), names) == emit_infix(
            fill_state(p, names),
            fill_operand(lhs, names),
            fill_operand(rhs, names),
            op,
            names[rank],
        ),
{
    let s1 = p.inst_with("mov ecx, "@, lhs);
    lemma_fill_inst_with(p, names, "mov ecx, "@, lhs);
    let s2 = s1.inst("sub ecx, '0'"@);
    lemma_fill_inst(s1, names, "sub ecx, '0'"@);
    let s3 = s2.inst_with("mov edx, "@, rhs);
    lemma_fill_inst_with(s2, names, "mov edx, "@, rhs);
    let s4 = s3.inst("sub edx, '0'"@);
    lemma_fill_inst(s3, names, "sub edx, '0'"@);
    let s5 = s4.inst("mov eax, ecx"@);
    lemma_fill_inst(s4, names, "mov eax, ecx"@);
    let s6 = match op {
        Op::Add => s5.inst("add eax, edx"@),
        Op::Sub => s5.inst("sub eax, edx"@),
    };
    lemma_fill_inst(s5, names, "add eax, edx"@);
    lemma_fill_inst(s5, names, "sub eax, edx"@);
    let s7 = s6.inst("add eax, '0'"@);
    lemma_fill_inst(s6, names, "add eax, '0'"@);
    lemma_fill_store(s7, names, rank);
}

/// Filling in the names of the pattern of a print gives the state after the
/// print of the operand filled in.
pub proof fn lemma_fill_print(p: StatePattern, names: Seq<Seq<char>>, value: OperandPattern)
    ensures
        fill_state(p.print(value), names) == emit_print(
            fill_state(p, names),
            fill_operand(value, names),
        ),
{
    let s1 = p.inst_with("mov ecx, "@, value);
    lemma_fill_inst_with(p, names, "mov ecx, "@, value);
    let s2 = s1.inst("mov edx, 2"@);
    lemma_fill_inst(s1, names, "mov edx, 2"@);
    let s3 = s2.inst("mov ebx, 1"@);
    lemma_fill_inst(s2, names, "mov ebx, 1"@);
    let s4 = s3.inst("mov eax, 4"@);
    lemma_fill_inst(s3, names, "mov eax, 4"@);
    lemma_fill_inst(s4, names, "int 0x80"@);
}

/// The compilation of a node is the pattern of the node with the names
/// filled in.
pub proof fn lemma_node_follows_pattern(
    node: SpecNode,
    names: Seq<Seq<char>>,
    k: int,
    p: StatePattern,
)
    ensures
        emit_node(node, names, k, fill_state(p, names)) == (Emitted {
            state: fill_state(node_pattern(node, k, p).state, names),
            operand: fill_operand(node_pattern(node, k, p).operand, names),
        }),
    decreases node,
{
    match node {
        SpecNode::Literal(_) => {},
        SpecNode::Ident(_) => {},
        SpecNode::Assign(name, value) => {
            lemma_node_follows_pattern(*value, names, k + 1, p);
            let v = node_pattern(*value, k + 1, p);
            lemma_fill_assign(v.state, names, name, v.operand);
            lemma_fill_define_byte(v.state.assign(name, v.operand), names, k);
        },
        SpecNode::Infix { lhs, rhs, op } => {
            lemma_node_follows_pattern(*lhs, names, k + 1, p);
            let l = node_pattern(*lhs, k + 1, p);
            lemma_node_follows_pattern(*rhs, names, k + 1 + node_count(*lhs), l.state);
            let r = node_pattern(*rhs, k + 1 + node_count(*lhs), l.state);
            lemma_fill_infix(r.state, names, l.operand, r.operand, op, k);
            lemma_fill_define_byte(r.state.infix(l.operand, r.operand, op, k), names, k);
        },
        SpecNode::Print(value) => {
            lemma_node_follows_pattern(*value, names, k + 1, p);
            let v = node_pattern(*value, k + 1, p);
            lemma_fill_print(v.state, names, v.operand);
            lemma_fill_define_byte(v.state.print(v.operand), names, k);
        },
    }
}

/// The compilation of the first `n` statements is their pattern with the
/// names filled in.
pub proof fn lemma_statements_follow_pattern(
    program: Seq<SpecNode>,
    names: Seq<Seq<char>>,
    p: StatePattern,
    n: int,
)
    ensures
        emit_statements(program, names, fill_state(p, names), n) == fill_state(
            statements_pattern(program, p, n),
            names,
        ),
    decreases n,
{
    if 0 < n <= program.len() {
        lemma_statements_follow_pattern(program, names, p, n - 1);
        lemma_node_follows_pattern(
            program[n - 1],
            names,
            program_node_count(program, n - 1) as int,
            statements_pattern(program, p, n - 1),
        );
    }
}

/// What a compilation leaves behind is the pattern of the program with the
/// temporary names filled in, whatever the names are.
pub proof fn lemma_compilation_follows_pattern(
    program: Seq<SpecNode>,
    names: Seq<Seq<char>>,
    p: StatePattern,
)
    ensures
        compile_state(program, names, fill_state(p, names)) == fill_state(
            compile_pattern(program, p),
            names,
        ),
{
    lemma_fill_label(p, names, "_start"@);
    lemma_statements_follow_pattern(program, names, p.label("_start"@), program.len() as int);
    let body = statements_pattern(program, p.label("_start"@), program.len() as int);
    lemma_fill_inst(body, names, "mov eax, 1"@);
    lemma_fill_inst(body.inst("mov eax, 1"@), names, "int 0x80"@);
}

/// Two compilations of one program, each from the empty state, write the
/// same pattern: their outputs are equal once each temporary name is
/// replaced by its rank, and differ in nothing but those names. With the
/// same names they are equal.
pub proof fn lemma_compilations_differ_only_in_names(
    program: Seq<SpecNode>,
    a: Seq<Seq<char>>,
    b: Seq<Seq<char>>,
)
    ensures
        compile_state(program, a, AsmState::empty()).text() == fill_state(
            compile_pattern(program, StatePattern::empty()),
            a,
        ).text(),
        compile_state(program, b, AsmState::empty()).text() == fill_state(
            compile_pattern(program, StatePattern::empty()),
            b,
        ).text(),
        a == b ==> compile_state(program, a, AsmState::empty()).text() == compile_state(
            program,
            b,
            AsmState::empty(),
        ).text(),
{
    let p = StatePattern::empty();
    assert(fill_state(p, a).code =~= AsmState::empty().code);
    assert(fill_state(p, a).data =~= AsmState::empty().data);
    assert(fill_state(p, a).bss =~= AsmState::empty().bss);
    assert(fill_state(p, a).variables =~= AsmState::empty().variables);
    assert(fill_state(p, b).code =~= AsmState::empty().code);
    assert(fill_state(p, b).data =~= AsmState::empty().data);
    assert(fill_state(p, b).bss =~= AsmState::empty().bss);
    assert(fill_state(p, b).variables =~= AsmState::empty().variables);
    lemma_compilation_follows_pattern(program, a, p);
    lemma_compilation_follows_pattern(program, b, p);
}

} // verus!
