//! The assembly model: three sections of text lines that only grow, a table
//! of compile-time substitutions, and the text they are put together into.

use vstd::prelude::*;
use vstd::string::*;
use vstd::hash_map::StringHashMap;
use crate::text::{join, join_lines};

verus! {

/// The model of an [`Assembler`]: the lines of each section in the order in
/// which they were added, and the substitution recorded for each name.
pub struct AsmState {
    pub code: Seq<Seq<char>>,
    pub data: Seq<Seq<char>>,
    pub bss: Seq<Seq<char>>,
    pub variables: Map<Seq<char>, Seq<char>>,
}

impl AsmState {
    /// The state with no line and no substitution.
    pub open spec fn empty() -> AsmState {
        AsmState {
            code: Seq::empty(),
            data: Seq::empty(),
            bss: Seq::empty(),
            variables: Map::empty(),
        }
    }

    /// A label line at the end of the code section.
    pub open spec fn label(self, name: Seq<char>) -> AsmState {
        AsmState { code: self.code.push(name + ":"@), ..self }
    }

    /// An instruction line, indented by two spaces, at the end of the code
    /// section.
    pub open spec fn inst(self, inst: Seq<char>) -> AsmState {
        AsmState { code: self.code.push("  "@ + inst), ..self }
    }

    /// The reservation of one uninitialized byte at the end of the bss
    /// section.
    pub open spec fn define_byte(self, name: Seq<char>) -> AsmState {
        AsmState { bss: self.bss.push("  "@ + name + " resb 1"@), ..self }
    }

    /// The declaration of one initialized byte at the end of the data
    /// section.
    pub open spec fn declare_byte(self, name: Seq<char>, value: Seq<char>) -> AsmState {
        AsmState { data: self.data.push("  "@ + name + " db "@ + value), ..self }
    }

    /// The substitution of `corr` for `name`; an earlier one for the same
    /// name is replaced.
    pub open spec fn declare_comptime(self, name: Seq<char>, corr: Seq<char>) -> AsmState {
        AsmState { variables: self.variables.insert(name, corr), ..self }
    }

    /// The complete assembly text: the prelude, the code lines, the header of
    /// the data section with its lines, the header of the bss section with
    /// its lines.
    pub open spec fn text(self) -> Seq<char> {
        "\nsection\t.text\n  global _start\n"@ + "\n"@ + join_lines(self.code)
            + "\nsection .data\n"@ + join_lines(self.data) + "\nsegment .bss\n"@ + join_lines(
            self.bss,
        )
    }

    /// Every section of `self` is a prefix of the same section of `later`.
    pub open spec fn grows_to(self, later: AsmState) -> bool {
        &&& self.code.is_prefix_of(later.code)
        &&& self.data.is_prefix_of(later.data)
        &&& self.bss.is_prefix_of(later.bss)
    }
}

/// The accumulator of assembly text.
pub struct Assembler {
    bss: Vec<String>,
    code: Vec<String>,
    data: Vec<String>,
    pub variables: StringHashMap<String>,
}

impl View for Assembler {
    type V = AsmState;

    open spec fn view(&self) -> AsmState {
        AsmState {
            code: self.code_lines(),
            data: self.data_lines(),
            bss: self.bss_lines(),
            variables: self.substitutions(),
        }
    }
}

impl Default for Assembler {
    fn default() -> (fresh: Assembler)
        ensures
            fresh@ == AsmState::empty(),
    {
        let fresh = Assembler {
            bss: Vec::new(),
            code: Vec::new(),
            data: Vec::new(),
            variables: StringHashMap::new(),
        };
        assert(fresh@.variables =~= Map::empty());
        assert(fresh@.code =~= Seq::empty());
        assert(fresh@.data =~= Seq::empty());
        assert(fresh@.bss =~= Seq::empty());
        fresh
    }
}

impl Assembler {
    /// The lines of the code section.
    pub closed spec fn code_lines(&self) -> Seq<Seq<char>> {
        self.code.deep_view()
    }

    /// The lines of the data section.
    pub closed spec fn data_lines(&self) -> Seq<Seq<char>> {
        self.data.deep_view()
    }

    /// The lines of the bss section.
    pub closed spec fn bss_lines(&self) -> Seq<Seq<char>> {
        self.bss.deep_view()
    }

    /// The substitution recorded for each name.
    pub closed spec fn substitutions(&self) -> Map<Seq<char>, Seq<char>> {
        self.variables@.map_values(|corr: String| corr@)
    }

    /// Finalize codegen. Put things together.
    pub fn finalize(&self) -> (text: String)
        ensures
            text@ == self@.text(),
    {
        let mut text = String::from_str("\nsection\t.text\n  global _start\n");
        text.append("\n");
        let code = join(&self.code);
        text.append(code.as_str());
        text.append("\nsection .data\n");
        let data = join(&self.data);
        text.append(data.as_str());
        text.append("\nsegment .bss\n");
        let bss = join(&self.bss);
        text.append(bss.as_str());
        text
    }

    /// Declare a new byte variable in the BSS section
    pub fn define_byte(&mut self, name: &str)
        ensures
            final(self)@ == old(self)@.define_byte(name@),
    {
        let mut decl = String::from_str("  ");
        decl.append(name);
        decl.append(" resb 1");
        self.bss.push(decl);
        assert(self.bss.deep_view() =~= old(self).bss.deep_view().push(decl@));
    }

    /// Declare a new initialized byte variable in the data section
    pub fn declare_byte(&mut self, name: &str, value: &str)
        ensures
            final(self)@ == old(self)@.declare_byte(name@, value@),
    {
        let mut decl = String::from_str("  ");
        decl.append(name);
        decl.append(" db ");
        decl.append(value);
        self.data.push(decl);
        assert(self.data.deep_view() =~= old(self).data.deep_view().push(decl@));
    }

    /// Start a new label
    pub fn label(&mut self, name: &str)
        ensures
            final(self)@ == old(self)@.label(name@),
    {
        let mut label = String::from_str(name);
        label.append(":");
        self.code.push(label);
        assert(self.code.deep_view() =~= old(self).code.deep_view().push(label@));
    }

    /// Push a new instruction. Goes under the current label.
    pub fn inst(&mut self, inst: &str)
        ensures
            final(self)@ == old(self)@.inst(inst@),
    {
        let mut line = String::from_str("  ");
        line.append(inst);
        self.code.push(line);
        assert(self.code.deep_view() =~= old(self).code.deep_view().push(line@));
    }

    /// Record a compile-time substitution of `corr` for `name`.
    pub fn declare_comptime(&mut self, name: &str, corr: &str)
        ensures
            final(self)@ == old(self)@.declare_comptime(name@, corr@),
    {
        let key = String::from_str(name);
        let value = String::from_str(corr);
        self.variables.insert(key, value);
        assert(self@.variables =~= old(self)@.variables.insert(name@, corr@));
    }

    /// The substitution recorded for `name`, if there is one.
    pub fn substitution(&self, name: &str) -> (corr: Option<String>)
        ensures
            match corr {
                Some(text) => self@.variables.contains_key(name@) && text@ == self@.variables[name@],
                None => !self@.variables.contains_key(name@),
            },
    {
        match self.variables.get(name) {
            Some(text) => Some(text.clone()),
            None => None,
        }
    }
}

} // verus!
