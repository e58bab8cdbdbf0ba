//! The code generator: it walks the syntax tree, drives the assembly model
//! and hands back, for each node, the operand under which the node's value is
//! found.

use vstd::prelude::*;
use vstd::string::*;
use crate::assembler::{AsmState, Assembler};
use crate::ast::{node_count, program_node_count, InBuiltFn, Literal, Node, Op, SpecNode};
use crate::text::{decimal, decimal_string};

verus! {

/// One of the characters a-z, A-Z and 0-9.
pub open spec fn is_alphanumeric(c: char) -> bool {
    ('0' <= c && c <= '9') || ('a' <= c && c <= 'z') || ('A' <= c && c <= 'Z')
}

/// The shape of a generated temporary name: ten alphanumeric characters.
pub open spec fn is_temp_name(name: Seq<char>) -> bool {
    &&& name.len() == 10
    &&& forall|i: int| 0 <= i < name.len() ==> is_alphanumeric(#[trigger] name[i])
}

/// `used` takes its names from `given` as far as `given` reaches; every name
/// beyond that has the shape of a generated one.
pub open spec fn supplied(used: Seq<Seq<char>>, given: Seq<Seq<char>>) -> bool {
    forall|i: int|
        0 <= i < used.len() ==> if i < given.len() {
            #[trigger] used[i] == given[i]
        } else {
            is_temp_name(used[i])
        }
}

/// How many of the `given` names are taken once `taken` names are.
pub open spec fn given_used(taken: nat, given: nat) -> nat {
    if taken <= given {
        taken
    } else {
        given
    }
}

/// The operand that stands for the temporary byte `name`: a reference to it
/// in square brackets.
pub open spec fn temp_operand(name: Seq<char>) -> Seq<char> {
    "["@ + name + "]"@
}

/// The operand of an integer literal: its decimal rendering between single
/// quotes. For a value of more than one character this is no operand of one
/// byte; the text is produced all the same.
pub open spec fn literal_operand(v: int) -> Seq<char> {
    "'"@ + decimal(v) + "'"@
}

/// Whether an operand has the shape of a quoted literal: it begins with a
/// single quote.
pub open spec fn is_quoted(operand: Seq<char>) -> bool {
    operand.len() > 0 && operand[0] == '\''
}

/// What the compilation of one node leaves behind: the assembly state and
/// the operand under which the node's value is found.
pub struct Emitted {
    pub state: AsmState,
    pub operand: Seq<char>,
}

/// The state after a binary operation on two operands whose result goes to
/// the temporary `temp`: both operands are loaded and turned from digit
/// characters into numbers, combined, turned back and stored.
pub open spec fn emit_infix(
    s: AsmState,
    lhs: Seq<char>,
    rhs: Seq<char>,
    op: Op,
    temp: Seq<char>,
) -> AsmState {
    let loaded = s.inst("mov ecx, "@ + lhs).inst("sub ecx, '0'"@).inst("mov edx, "@ + rhs).inst(
        "sub edx, '0'"@,
    ).inst("mov eax, ecx"@);
    let combined = match op {
        Op::Add => loaded.inst("add eax, edx"@),
        Op::Sub => loaded.inst("sub eax, edx"@),
    };
    combined.inst("add eax, '0'"@).inst("mov ["@ + temp + "], eax"@)
}

/// The state after binding `name` to an operand: a quoted literal becomes an
/// initialized byte of the data section, anything else a compile-time
/// substitution.
pub open spec fn emit_assign(s: AsmState, name: Seq<char>, value: Seq<char>) -> AsmState {
    if is_quoted(value) {
        s.declare_byte(name, value)
    } else {
        s.declare_comptime(name, value)
    }
}

/// The state after a print of an operand: a write of two bytes to standard
/// output.
pub open spec fn emit_print(s: AsmState, value: Seq<char>) -> AsmState {
    s.inst("mov ecx, "@ + value).inst("mov edx, 2"@).inst("mov ebx, 1"@).inst("mov eax, 4"@).inst(
        "int 0x80"@,
    )
}

/// The compilation of one node, started in state `s`. The node takes the
/// temporary name `names[k]`; the nodes below it take the names that follow,
/// in the order in which they are visited. A literal and an identifier take
/// a name too, which they leave unused.
pub open spec fn emit_node(node: SpecNode, names: Seq<Seq<char>>, k: int, s: AsmState) -> Emitted
    decreases node,
{
    let temp = names[k];
    match node {
        SpecNode::Literal(v) => Emitted { state: s, operand: literal_operand(v) },
        SpecNode::Ident(name) => Emitted {
            state: s,
            operand: if s.variables.contains_key(name) {
                s.variables[name]
            } else {
                name
            },
        },
        SpecNode::Assign(name, value) => {
            let v = emit_node(*value, names, k + 1, s);
            Emitted {
                state: emit_assign(v.state, name, v.operand).define_byte(temp),
                operand: temp_operand(temp),
            }
        },
        SpecNode::Infix { lhs, rhs, op } => {
            let l = emit_node(*lhs, names, k + 1, s);
            let r = emit_node(*rhs, names, k + 1 + node_count(*lhs), l.state);
            Emitted {
                state: emit_infix(r.state, l.operand, r.operand, op, temp).define_byte(temp),
                operand: temp_operand(temp),
            }
        },
        SpecNode::Print(value) => {
            let v = emit_node(*value, names, k + 1, s);
            Emitted {
                state: emit_print(v.state, v.operand).define_byte(temp),
                operand: temp_operand(temp),
            }
        },
    }
}

/// The state after the first `n` statements of a program, compiled one after
/// the other from state `s`.
pub open spec fn emit_statements(
    program: Seq<SpecNode>,
    names: Seq<Seq<char>>,
    s: AsmState,
    n: int,
) -> AsmState
    decreases n,
{
    if n <= 0 || n > program.len() {
        s
    } else {
        emit_node(
            program[n - 1],
            names,
            program_node_count(program, n - 1) as int,
            emit_statements(program, names, s, n - 1),
        ).state
    }
}

/// The state after a whole compilation: the entry label, the statements, the
/// exit sequence.
pub open spec fn compile_state(program: Seq<SpecNode>, names: Seq<Seq<char>>, s: AsmState) -> AsmState {
    emit_statements(program, names, s.label("_start"@), program.len() as int).inst(
        "mov eax, 1"@,
    ).inst("int 0x80"@)
}

/// A node reads no other names than its own: those from `k` on, one for
/// each node of the tree.
pub proof fn lemma_emit_reads_own_names(
    node: SpecNode,
    a: Seq<Seq<char>>,
    b: Seq<Seq<char>>,
    k: int,
    s: AsmState,
)
    requires
        forall|i: int| k <= i < k + node_count(node) ==> a[i] == b[i],
    ensures
        emit_node(node, a, k, s) == emit_node(node, b, k, s),
    decreases node,
{
    match node {
        SpecNode::Literal(_) => {},
        SpecNode::Ident(_) => {},
        SpecNode::Assign(_, value) => {
            lemma_emit_reads_own_names(*value, a, b, k + 1, s);
        },
        SpecNode::Infix { lhs, rhs, .. } => {
            lemma_emit_reads_own_names(*lhs, a, b, k + 1, s);
            let l = emit_node(*lhs, a, k + 1, s);
            lemma_emit_reads_own_names(*rhs, a, b, k + 1 + node_count(*lhs), l.state);
        },
        SpecNode::Print(value) => {
            lemma_emit_reads_own_names(*value, a, b, k + 1, s);
        },
    }
}

/// The first `n` statements read no other names than the first
/// `program_node_count(program, n)`.
pub proof fn lemma_statements_read_own_names(
    program: Seq<SpecNode>,
    a: Seq<Seq<char>>,
    b: Seq<Seq<char>>,
    s: AsmState,
    n: int,
)
    requires
        forall|i: int| 0 <= i < program_node_count(program, n) ==> a[i] == b[i],
    ensures
        emit_statements(program, a, s, n) == emit_statements(program, b, s, n),
    decreases n,
{
    if 0 < n <= program.len() {
        lemma_statements_read_own_names(program, a, b, s, n - 1);
        lemma_emit_reads_own_names(
            program[n - 1],
            a,
            b,
            program_node_count(program, n - 1) as int,
            emit_statements(program, a, s, n - 1),
        );
    }
}

/// The number of nodes of a tree whose value goes to a temporary byte:
/// every node but the literals and the identifiers.
pub open spec fn stored_count(node: SpecNode) -> nat
    decreases node,
{
    match node {
        SpecNode::Infix { lhs, rhs, .. } => 1 + stored_count(*lhs) + stored_count(*rhs),
        SpecNode::Literal(_) => 0,
        SpecNode::Print(value) => 1 + stored_count(*value),
        SpecNode::Ident(_) => 0,
        SpecNode::Assign(_, value) => 1 + stored_count(*value),
    }
}

/// A state that has grown still begins with what it grew from when an
/// instruction is added.
pub proof fn lemma_inst_grows(from: AsmState, s: AsmState, inst: Seq<char>)
    requires
        from.grows_to(s),
    ensures
        from.grows_to(s.inst(inst)),
        s.inst(inst).bss == s.bss,
{
}

/// A state that has grown still begins with what it grew from when a byte
/// is reserved.
pub proof fn lemma_define_byte_grows(from: AsmState, s: AsmState, name: Seq<char>)
    requires
        from.grows_to(s),
    ensures
        from.grows_to(s.define_byte(name)),
        s.define_byte(name).bss.len() == s.bss.len() + 1,
{
}

/// The compilation of a node only adds lines: every section of the state
/// before is a prefix of that section after. The bss section gets one line
/// for each node whose value goes to a temporary byte.
pub proof fn lemma_emit_grows(node: SpecNode, names: Seq<Seq<char>>, k: int, s: AsmState)
    ensures
        s.grows_to(emit_node(node, names, k, s).state),
        emit_node(node, names, k, s).state.bss.len() == s.bss.len() + stored_count(node),
    decreases node,
{
    let temp = names[k];
    match node {
        SpecNode::Literal(_) => {},
        SpecNode::Ident(_) => {},
        SpecNode::Assign(name, value) => {
            lemma_emit_grows(*value, names, k + 1, s);
            let v = emit_node(*value, names, k + 1, s);
            let bound = emit_assign(v.state, name, v.operand);
            assert(s.grows_to(bound));
            lemma_define_byte_grows(s, bound, temp);
        },
        SpecNode::Infix { lhs, rhs, op } => {
            lemma_emit_grows(*lhs, names, k + 1, s);
            let l = emit_node(*lhs, names, k + 1, s);
            lemma_emit_grows(*rhs, names, k + 1 + node_count(*lhs), l.state);
            let r = emit_node(*rhs, names, k + 1 + node_count(*lhs), l.state);
            assert(s.grows_to(r.state));
            let s1 = r.state.inst("mov ecx, "@ + l.operand);
            lemma_inst_grows(s, r.state, "mov ecx, "@ + l.operand);
            let s2 = s1.inst("sub ecx, '0'"@);
            lemma_inst_grows(s, s1, "sub ecx, '0'"@);
            let s3 = s2.inst("mov edx, "@ + r.operand);
            lemma_inst_grows(s, s2, "mov edx, "@ + r.operand);
            let s4 = s3.inst("sub edx, '0'"@);
            lemma_inst_grows(s, s3, "sub edx, '0'"@);
            let s5 = s4.inst("mov eax, ecx"@);
            lemma_inst_grows(s, s4, "mov eax, ecx"@);
            let s6 = match op {
                Op::Add => s5.inst("add eax, edx"@),
                Op::Sub => s5.inst("sub eax, edx"@),
            };
            lemma_inst_grows(s, s5, "add eax, edx"@);
            lemma_inst_grows(s, s5, "sub eax, edx"@);
            let s7 = s6.inst("add eax, '0'"@);
            lemma_inst_grows(s, s6, "add eax, '0'"@);
            let s8 = s7.inst("mov ["@ + temp + "], eax"@);
            lemma_inst_grows(s, s7, "mov ["@ + temp + "], eax"@);
            lemma_define_byte_grows(s, s8, temp);
        },
        SpecNode::Print(value) => {
            lemma_emit_grows(*value, names, k + 1, s);
            let v = emit_node(*value, names, k + 1, s);
            let s1 = v.state.inst("mov ecx, "@ + v.operand);
            lemma_inst_grows(s, v.state, "mov ecx, "@ + v.operand);
            let s2 = s1.inst("mov edx, 2"@);
            lemma_inst_grows(s, s1, "mov edx, 2"@);
            let s3 = s2.inst("mov ebx, 1"@);
            lemma_inst_grows(s, s2, "mov ebx, 1"@);
            let s4 = s3.inst("mov eax, 4"@);
            lemma_inst_grows(s, s3, "mov eax, 4"@);
            let s5 = s4.inst("int 0x80"@);
            lemma_inst_grows(s, s4, "int 0x80"@);
            lemma_define_byte_grows(s, s5, temp);
        },
    }
}

/// The compilation of statements only adds lines.
pub proof fn lemma_statements_grow(
    program: Seq<SpecNode>,
    names: Seq<Seq<char>>,
    s: AsmState,
    n: int,
)
    ensures
        s.grows_to(emit_statements(program, names, s, n)),
    decreases n,
{
    if 0 < n <= program.len() {
        lemma_statements_grow(program, names, s, n - 1);
        lemma_emit_grows(
            program[n - 1],
            names,
            program_node_count(program, n - 1) as int,
            emit_statements(program, names, s, n - 1),
        );
    }
}

/// A compilation only adds lines to the state it starts from: the sections
/// are append-only. The first code line it adds is the entry label, the
/// last two are the exit sequence.
pub proof fn lemma_compilation_grows(program: Seq<SpecNode>, names: Seq<Seq<char>>, s: AsmState)
    ensures
        s.grows_to(compile_state(program, names, s)),
        compile_state(program, names, s).code.len() >= s.code.len() + 3,
        compile_state(program, names, s).code[s.code.len() as int] == "_start:"@,
        compile_state(program, names, s).code.last() == "  int 0x80"@,
        compile_state(program, names, s).code[compile_state(program, names, s).code.len() - 2]
            == "  mov eax, 1"@,
{
    let start = s.label("_start"@);
    let body = emit_statements(program, names, start, program.len() as int);
    lemma_statements_grow(program, names, start, program.len() as int);
    assert(s.grows_to(start));
    assert(s.grows_to(body));
    lemma_inst_grows(s, body, "mov eax, 1"@);
    lemma_inst_grows(s, body.inst("mov eax, 1"@), "int 0x80"@);
    assert(start.code[s.code.len() as int] == "_start"@ + ":"@);
    reveal_strlit("_start");
    reveal_strlit(":");
    reveal_strlit("_start:");
    assert("_start"@ + ":"@ =~= "_start:"@);
    reveal_strlit("  ");
    reveal_strlit("int 0x80");
    reveal_strlit("  int 0x80");
    assert("  "@ + "int 0x80"@ =~= "  int 0x80"@);
    reveal_strlit("mov eax, 1");
    reveal_strlit("  mov eax, 1");
    assert("  "@ + "mov eax, 1"@ =~= "  mov eax, 1"@);
}

/// `fastrand::alphanumeric`: one character drawn from the generator of the
/// current thread. Which one is drawn is not known; it is always one of a-z,
/// A-Z and 0-9.
#[verifier::external_body]
fn random_alphanumeric() -> (c: char)
    ensures
        is_alphanumeric(c),
{
    fastrand::alphanumeric()
}

/// A freshly generated temporary name.
fn fresh_name() -> (name: String)
    ensures
        is_temp_name(name@),
{
    let mut name = String::new();
    let mut i: usize = 0;
    while i < 10
        invariant
            i <= 10,
            name@.len() == i,
            forall|j: int| 0 <= j < name@.len() ==> is_alphanumeric(#[trigger] name@[j]),
        decreases 10 - i,
    {
        name.push(random_alphanumeric());
        i += 1;
    }
    name
}

/// The two texts, one after the other.
fn concat(a: &str, b: &str) -> (s: String)
    ensures
        s@ == a@ + b@,
{
    let mut s = String::from_str(a);
    s.append(b);
    s
}

/// Whether an operand begins with a single quote.
fn starts_with_quote(operand: &str) -> (b: bool)
    ensures
        b == is_quoted(operand@),
{
    if operand.is_empty() {
        false
    } else {
        operand.get_char(0) == '\''
    }
}

/// The code generator, with the assembly state it has built so far.
pub struct Compiler {
    assembler: Assembler,
}

impl View for Compiler {
    type V = AsmState;

    closed spec fn view(&self) -> AsmState {
        self.assembler@
    }
}

impl Default for Compiler {
    fn default() -> (compiler: Compiler)
        ensures
            compiler@ == AsmState::empty(),
    {
        Compiler { assembler: Assembler::default() }
    }
}

impl Compiler {
    /// The assembly model that this compiler writes to.
    pub fn assembler(&self) -> (assembler: &Assembler)
        ensures
            assembler@ == self@,
    {
        &self.assembler
    }

    /// Compiles a program and returns the finalized assembly text. The
    /// temporary names are generated, one for each node of the program.
    pub fn compile(&mut self, program: Vec<Node>) -> (text: String)
        ensures
            exists|names: Seq<Seq<char>>|
                {
                    &&& names.len() == program_node_count(
                        program.deep_view(),
                        program.len() as int,
                    )
                    &&& forall|i: int| 0 <= i < names.len() ==> is_temp_name(#[trigger] names[i])
                    &&& final(self)@ == compile_state(program.deep_view(), names, old(self)@)
                },
            old(self)@.grows_to(final(self)@),
            text@ == final(self)@.text(),
    {
        let given: Vec<String> = Vec::new();
        let text = self.compile_with_names(program, given);
        proof {
            let names = choose|names: Seq<Seq<char>>|
                {
                    &&& names.len() == program_node_count(
                        program.deep_view(),
                        program.len() as int,
                    )
                    &&& supplied(names, given.deep_view())
                    &&& self@ == compile_state(program.deep_view(), names, old(self)@)
                };
            assert forall|i: int| 0 <= i < names.len() implies is_temp_name(
                #[trigger] names[i],
            ) by {}
        }
        text
    }

    /// Compiles a program with the temporary names in `given`, which the
    /// nodes take in the order in which they are visited, and returns the
    /// finalized assembly text. Where `given` holds fewer names than the
    /// program has nodes, the remaining names are generated.
    pub fn compile_with_names(&mut self, program: Vec<Node>, given: Vec<String>) -> (text: String)
        ensures
            exists|names: Seq<Seq<char>>|
                {
                    &&& names.len() == program_node_count(
                        program.deep_view(),
                        program.len() as int,
                    )
                    &&& supplied(names, given.deep_view())
                    &&& final(self)@ == compile_state(program.deep_view(), names, old(self)@)
                },
            given.len() >= program_node_count(program.deep_view(), program.len() as int)
                ==> final(self)@ == compile_state(
                program.deep_view(),
                given.deep_view(),
                old(self)@,
            ),
            old(self)@.grows_to(final(self)@),
            text@ == final(self)@.text(),
    {
        let ghost tree = program.deep_view();
        let ghost start = self@.label("_start"@);
        self.assembler.label("_start");
        let mut names: Ghost<Seq<Seq<char>>> = Ghost(Seq::empty());
        let mut next: usize = 0;
        let mut i: usize = 0;
        while i < program.len()
            invariant
                i <= program.len(),
                tree == program.deep_view(),
                names@.len() == program_node_count(tree, i as int),
                supplied(names@, given.deep_view()),
                next == given_used(names@.len(), given.len() as nat),
                self@ == emit_statements(tree, names@, start, i as int),
            decreases program.len() - i,
        {
            let ghost before = names@;
            let (_, n, after) = self.compile_node(&program[i], &given, next, names);
            proof {
                assert(tree[i as int] == program[i as int].deep_view());
                lemma_statements_read_own_names(tree, before, after@, start, i as int);
            }
            names = after;
            next = n;
            i += 1;
        }
        self.assembler.inst("mov eax, 1");
        self.assembler.inst("int 0x80");
        proof {
            let count = program_node_count(tree, program.len() as int);
            if given.len() >= count {
                lemma_statements_read_own_names(
                    tree,
                    names@,
                    given.deep_view(),
                    start,
                    program.len() as int,
                );
            }
            assert(self@ == compile_state(tree, names@, old(self)@));
            lemma_compilation_grows(tree, names@, old(self)@);
        }
        self.assembler.finalize()
    }

    /// Compiles one node and returns the operand under which its value is
    /// found. The node takes the next temporary name: the one at `next` in
    /// `given` if there is one, else a generated one; `names` holds the
    /// names taken so far.
    fn compile_node(
        &mut self,
        node: &Node,
        given: &Vec<String>,
        next: usize,
        names: Ghost<Seq<Seq<char>>>,
    ) -> (res: (String, usize, Ghost<Seq<Seq<char>>>))
        requires
            supplied(names@, given.deep_view()),
            next == given_used(names@.len(), given.len() as nat),
        ensures
            res.2@.len() == names@.len() + node_count(node.deep_view()),
            res.2@.take(names@.len() as int) == names@,
            supplied(res.2@, given.deep_view()),
            res.1 == given_used(res.2@.len(), given.len() as nat),
            (Emitted { state: final(self)@, operand: res.0@ }) == emit_node(
                node.deep_view(),
                res.2@,
                names@.len() as int,
                old(self)@,
            ),
        decreases node,
    {
        let ghost k = names@.len() as int;
        let ghost s = self@;
        let (r, next) = if next < given.len() {
            (given[next].clone(), next + 1)
        } else {
            (fresh_name(), next)
        };
        let ghost own = names@.push(r@);
        assert(own.take(k) =~= names@);
        match node {
            Node::Assign(name, value) => {
                let (value, next, after) = self.compile_node(value, given, next, Ghost(own));
                if starts_with_quote(value.as_str()) {
                    self.assembler.declare_byte(name.as_str(), value.as_str());
                } else {
                    self.assembler.declare_comptime(name.as_str(), value.as_str());
                }
                self.assembler.define_byte(r.as_str());
                proof {
                    assert(after@[k] == own[k]);
                    assert(after@.take(k) == after@.take(k + 1).take(k));
                }
                (concat(concat("[", r.as_str()).as_str(), "]"), next, after)
            },
            Node::Infix { lhs, rhs, op } => {
                let ghost l_tree = lhs.deep_view();
                let (lhs, next, middle) = self.compile_node(lhs, given, next, Ghost(own));
                let (rhs, next, after) = self.compile_node(rhs, given, next, middle);
                proof {
                    assert(middle@ == after@.take(middle@.len() as int));
                    assert(after@[k] == own[k]);
                    assert(after@.take(k + 1) =~= middle@.take(k + 1));
                    assert(after@.take(k) =~= after@.take(k + 1).take(k));
                    lemma_emit_reads_own_names(l_tree, middle@, after@, k + 1, s);
                }
                self.assembler.inst(concat("mov ecx, ", lhs.as_str()).as_str());
                self.assembler.inst("sub ecx, '0'");
                self.assembler.inst(concat("mov edx, ", rhs.as_str()).as_str());
                self.assembler.inst("sub edx, '0'");
                self.assembler.inst("mov eax, ecx");
                match op {
                    Op::Add => {
                        self.assembler.inst("add eax, edx");
                    },
                    Op::Sub => {
                        self.assembler.inst("sub eax, edx");
                    },
                }
                self.assembler.inst("add eax, '0'");
                self.assembler.inst(
                    concat(concat("mov [", r.as_str()).as_str(), "], eax").as_str(),
                );
                self.assembler.define_byte(r.as_str());
                (concat(concat("[", r.as_str()).as_str(), "]"), next, after)
            },
            Node::Literal(Literal::Int(v)) => {
                let digits = decimal_string(*v);
                (concat(concat("'", digits.as_str()).as_str(), "'"), next, Ghost(own))
            },
            Node::Ident(name) => {
                match self.assembler.substitution(name.as_str()) {
                    Some(holding) => (holding, next, Ghost(own)),
                    None => (name.clone(), next, Ghost(own)),
                }
            },
            Node::Fn(InBuiltFn::Print(value)) => {
                let (value, next, after) = self.compile_node(value, given, next, Ghost(own));
                self.assembler.inst(concat("mov ecx, ", value.as_str()).as_str());
                self.assembler.inst("mov edx, 2");
                self.assembler.inst("mov ebx, 1");
                self.assembler.inst("mov eax, 4");
                self.assembler.inst("int 0x80");
                self.assembler.define_byte(r.as_str());
                proof {
                    assert(after@[k] == own[k]);
                    assert(after@.take(k) == after@.take(k + 1).take(k));
                }
                (concat(concat("[", r.as_str()).as_str(), "]"), next, after)
            },
        }
    }
}

} // verus!
