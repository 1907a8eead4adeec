//! The instruction-set table: a read-only capability mapping mnemonics to
//! operation classes, and (class, addressing mode) pairs to opcode
//! descriptors. The assembler core only reads it; callers construct one from
//! whatever encoding data they have.

use vstd::prelude::*;
use vstd::string::StrSliceExecFns;

verus! {

/// The operand-fetch scheme an instruction encoding implies.
#[derive(Debug, Clone, Copy, PartialEq, Eq, Structural)]
pub enum AddrMode {
    Implied,
    Immediate,
    ZeroPage,
    ZeroPageOffsetX,
    ZeroPageOffsetY,
    Absolute,
    AbsoluteOffsetX,
    AbsoluteOffsetY,
    Indirect,
    PreIndirectX,
    PostIndirectY,
    PCOffset,
}

/// One concrete instruction encoding: the opcode byte and the total encoded
/// length in bytes (the opcode byte plus its operand bytes).
#[derive(Debug, Clone, Copy, PartialEq, Eq, Structural)]
pub struct OpDescriptor {
    pub value: u8,
    pub length: u8,
}

/// One operation class: a mnemonic, and whether instructions of the class
/// transfer control as a branch or as a jump. A class that branches but does
/// not jump takes a PC-relative operand.
#[derive(Debug)]
pub struct OpClassDef {
    pub name: String,
    pub is_branch: bool,
    pub is_jump: bool,
}

/// Mathematical image of an [`OpClassDef`].
pub struct OpClassDefV {
    pub name: Seq<char>,
    pub is_branch: bool,
    pub is_jump: bool,
}

impl View for OpClassDef {
    type V = OpClassDefV;

    open spec fn view(&self) -> OpClassDefV {
        OpClassDefV { name: self.name@, is_branch: self.is_branch, is_jump: self.is_jump }
    }
}

/// One table row: the encoding of one (class, addressing mode) pair.
#[derive(Debug, Clone, Copy, PartialEq, Eq, Structural)]
pub struct OpCodeDef {
    pub class: usize,
    pub mode: AddrMode,
    pub desc: OpDescriptor,
}

/// Mathematical image of an [`OpTable`].
pub struct OpTableV {
    pub classes: Seq<OpClassDefV>,
    pub codes: Seq<OpCodeDef>,
}

/// The instruction-set table: operation classes and their encodings.
#[derive(Debug)]
pub struct OpTable {
    pub classes: Vec<OpClassDef>,
    pub codes: Vec<OpCodeDef>,
}

impl View for OpTable {
    type V = OpTableV;

    open spec fn view(&self) -> OpTableV {
        OpTableV {
            classes: self.classes@.map_values(|c: OpClassDef| c@),
            codes: self.codes@,
        }
    }
}

/// The first class index at or after `i` whose mnemonic is `name`.
pub open spec fn spec_classify_from(classes: Seq<OpClassDefV>, name: Seq<char>, i: int) -> Option<
    int,
>
    decreases classes.len() - i,
{
    if i < 0 || i >= classes.len() {
        None
    } else if classes[i].name == name {
        Some(i)
    } else {
        spec_classify_from(classes, name, i + 1)
    }
}

/// The class index of mnemonic `name`, if the table knows it.
pub open spec fn spec_classify(t: OpTableV, name: Seq<char>) -> Option<int> {
    spec_classify_from(t.classes, name, 0)
}

/// The first encoding at or after `i` for class `class` with mode `mode`.
pub open spec fn spec_lookup_from(
    codes: Seq<OpCodeDef>,
    class: int,
    mode: AddrMode,
    i: int,
) -> Option<OpDescriptor>
    decreases codes.len() - i,
{
    if i < 0 || i >= codes.len() {
        None
    } else if codes[i].class == class && codes[i].mode == mode {
        Some(codes[i].desc)
    } else {
        spec_lookup_from(codes, class, mode, i + 1)
    }
}

/// The opcode descriptor for `(class, mode)`, if the table has one.
pub open spec fn spec_lookup(t: OpTableV, class: int, mode: AddrMode) -> Option<OpDescriptor> {
    spec_lookup_from(t.codes, class, mode, 0)
}

/// Character-wise string equality.
fn str_eq(a: &str, b: &str) -> (r: bool)
    ensures
        r == (a@ == b@),
{
    let a_len = a.unicode_len();
    let b_len = b.unicode_len();
    if a_len != b_len {
        return false;
    }
    let mut i: usize = 0;
    while i < a_len
        invariant
            i <= a_len,
            a_len == a@.len(),
            a_len == b@.len(),
            forall|k: int| 0 <= k < i ==> a@[k] == b@[k],
        decreases a_len - i,
    {
        if a.get_char(i) != b.get_char(i) {
            return false;
        }
        i = i + 1;
    }
    proof {
        assert(a@ =~= b@);
    }
    true
}

impl OpTable {
    /// An empty table.
    pub fn new() -> (r: OpTable)
        ensures
            r@.classes == Seq::<OpClassDefV>::empty(),
            r@.codes == Seq::<OpCodeDef>::empty(),
    {
        let r = OpTable { classes: Vec::new(), codes: Vec::new() };
        proof {
            assert(r@.classes =~= Seq::<OpClassDefV>::empty());
        }
        r
    }

    /// Registers an operation class and returns its index.
    pub fn add_class(&mut self, name: String, is_branch: bool, is_jump: bool) -> (r: usize)
        ensures
            r == old(self)@.classes.len(),
            final(self)@.classes == old(self)@.classes.push(
                (OpClassDefV { name: name@, is_branch, is_jump }),
            ),
            final(self)@.codes == old(self)@.codes,
    {
        let r = self.classes.len();
        self.classes.push(OpClassDef { name, is_branch, is_jump });
        proof {
            assert(final(self)@.classes =~= old(self)@.classes.push(
                (OpClassDefV { name: name@, is_branch, is_jump }),
            ));
        }
        r
    }

    /// Registers the encoding of one (class, addressing mode) pair.
    pub fn add_code(&mut self, class: usize, mode: AddrMode, value: u8, length: u8)
        ensures
            final(self)@.classes == old(self)@.classes,
            final(self)@.codes == old(self)@.codes.push(
                (OpCodeDef { class, mode, desc: OpDescriptor { value, length } }),
            ),
    {
        self.codes.push(OpCodeDef { class, mode, desc: OpDescriptor { value, length } });
    }

    /// The class index of mnemonic `name`, if the table knows it.
    pub fn classify(&self, name: &str) -> (r: Option<usize>)
        ensures
            match r {
                Some(i) => Some(i as int) == spec_classify(self@, name@) && i
                    < self@.classes.len(),
                None => spec_classify(self@, name@) is None,
            },
    {
        let mut i: usize = 0;
        while i < self.classes.len()
            invariant
                i <= self@.classes.len(),
                spec_classify(self@, name@) == spec_classify_from(self@.classes, name@, i as int),
            decreases self@.classes.len() - i,
        {
            if str_eq(self.classes[i].name.as_str(), name) {
                return Some(i);
            }
            i = i + 1;
        }
        None
    }

    /// Whether class `class` transfers control as a branch.
    pub fn is_branch(&self, class: usize) -> (r: bool)
        requires
            class < self@.classes.len(),
        ensures
            r == self@.classes[class as int].is_branch,
    {
        self.classes[class].is_branch
    }

    /// Whether class `class` transfers control as a jump.
    pub fn is_jump(&self, class: usize) -> (r: bool)
        requires
            class < self@.classes.len(),
        ensures
            r == self@.classes[class as int].is_jump,
    {
        self.classes[class].is_jump
    }

    /// The opcode descriptor for `(class, mode)`, if the table has one.
    pub fn lookup(&self, class: usize, mode: AddrMode) -> (r: Option<OpDescriptor>)
        ensures
            r == spec_lookup(self@, class as int, mode),
    {
        let mut i: usize = 0;
        while i < self.codes.len()
            invariant
                i <= self@.codes.len(),
                spec_lookup(self@, class as int, mode) == spec_lookup_from(
                    self@.codes,
                    class as int,
                    mode,
                    i as int,
                ),
            decreases self@.codes.len() - i,
        {
            let code = self.codes[i];
            if code.class == class && code.mode == mode {
                return Some(code.desc);
            }
            i = i + 1;
        }
        None
    }
}

} // verus!
