//! The intermediate code of the fixed-width back end: a data section of labelled buffers
//! and a code section of three-address instructions.
use vstd::prelude::*;
use crate::syntax_analysis::parser::op::{Op, op_text};

verus! {

/// A labelled buffer of the data section, with its contents as assembly text and its
/// size.
#[derive(Debug, PartialEq, Clone)]
pub struct Buffer {
    pub label: String,
    pub contents: String,
    pub size: usize,
}

/// An operand: a name, a constant, or a memory position at a name plus an offset.
#[derive(Debug, PartialEq, Eq, Clone, Hash)]
pub enum Value {
    Identifier { id: String },
    Constant { value: String },
    MemPos { id: String, offset: String },
}

/// An instruction of the code section.
#[derive(Debug, PartialEq, Clone)]
pub enum IrInstruction {
    Ass { dest: Value, src: Value },
    Not { dest: Value, src: Value },
    Op { dest: Value, src1: Value, op: Op, src2: Value },
    Label(String),
    Goto { label: String },
    IfGoto { src1: Value, src2: Value, cond: Op, label: String },
    Param { src: Value },
    Call { label: String },
    Ret { src: Value },
}

/// The intermediate code of a program.
#[derive(Debug, PartialEq, Clone)]
pub struct Ir {
    pub data: Vec<Buffer>,
    pub code: Vec<IrInstruction>,
}

/// The value of an operand.
pub enum ValueV {
    Identifier { id: Seq<char> },
    Constant { value: Seq<char> },
    MemPos { id: Seq<char>, offset: Seq<char> },
}

impl View for Value {
    type V = ValueV;

    open spec fn view(&self) -> ValueV {
        match self {
            Value::Identifier { id } => ValueV::Identifier { id: id@ },
            Value::Constant { value } => ValueV::Constant { value: value@ },
            Value::MemPos { id, offset } => ValueV::MemPos { id: id@, offset: offset@ },
        }
    }
}

/// The value of an instruction.
pub enum InstrV {
    Ass { dest: ValueV, src: ValueV },
    Not { dest: ValueV, src: ValueV },
    Op { dest: ValueV, src1: ValueV, op: Op, src2: ValueV },
    Label(Seq<char>),
    Goto { label: Seq<char> },
    IfGoto { src1: ValueV, src2: ValueV, cond: Op, label: Seq<char> },
    Param { src: ValueV },
    Call { label: Seq<char> },
    Ret { src: ValueV },
}

impl View for IrInstruction {
    type V = InstrV;

    open spec fn view(&self) -> InstrV {
        match self {
            IrInstruction::Ass { dest, src } => InstrV::Ass { dest: dest@, src: src@ },
            IrInstruction::Not { dest, src } => InstrV::Not { dest: dest@, src: src@ },
            IrInstruction::Op { dest, src1, op, src2 } => InstrV::Op { dest: dest@, src1: src1@, op: *op, src2: src2@ },
            IrInstruction::Label(l) => InstrV::Label(l@),
            IrInstruction::Goto { label } => InstrV::Goto { label: label@ },
            IrInstruction::IfGoto { src1, src2, cond, label } => InstrV::IfGoto {
                src1: src1@,
                src2: src2@,
                cond: *cond,
                label: label@,
            },
            IrInstruction::Param { src } => InstrV::Param { src: src@ },
            IrInstruction::Call { label } => InstrV::Call { label: label@ },
            IrInstruction::Ret { src } => InstrV::Ret { src: src@ },
        }
    }
}

/// The value of a buffer.
pub struct BufferV {
    pub label: Seq<char>,
    pub contents: Seq<char>,
    pub size: nat,
}

impl View for Buffer {
    type V = BufferV;

    open spec fn view(&self) -> BufferV {
        BufferV { label: self.label@, contents: self.contents@, size: self.size as nat }
    }
}

/// The values of the data section.
pub open spec fn data_view(s: Seq<Buffer>) -> Seq<BufferV> {
    Seq::new(s.len(), |i: int| s[i]@)
}

/// The values of the code section.
pub open spec fn code_view(s: Seq<IrInstruction>) -> Seq<InstrV> {
    Seq::new(s.len(), |i: int| s[i]@)
}

/// The text of an operand.
pub open spec fn value_text(v: ValueV) -> Seq<char> {
    match v {
        ValueV::Identifier { id } => id,
        ValueV::Constant { value } => value,
        ValueV::MemPos { id, offset } => "["@ + id + " + "@ + offset + "]"@,
    }
}

/// The line of an instruction in the listing.
pub open spec fn instruction_text(i: InstrV) -> Seq<char> {
    match i {
        InstrV::Ass { dest, src } => "    "@ + value_text(dest) + " = "@ + value_text(src),
        InstrV::Not { dest, src } => "    "@ + value_text(dest) + " = !"@ + value_text(src),
        InstrV::Op { dest, src1, op, src2 } => "    "@ + value_text(dest) + " = "@ + value_text(src1)
            + " "@ + op_text(op) + " "@ + value_text(src2),
        InstrV::Label(l) => l + ":"@,
        InstrV::Goto { label } => "    goto "@ + label,
        InstrV::IfGoto { src1, src2, cond, label } => "    if "@ + value_text(src1) + " "@ + op_text(
            cond,
        ) + " "@ + value_text(src2) + " goto "@ + label,
        InstrV::Param { src } => "    param "@ + value_text(src),
        InstrV::Call { label } => "    call "@ + label,
        InstrV::Ret { src } => "    ret "@ + value_text(src),
    }
}

impl Value {
    /// The text of the operand.
    pub fn to_string(&self) -> (s: String)
        ensures
            s@ == value_text(self@),
    {
        match self {
            Value::Identifier { id } => id.clone(),
            Value::Constant { value } => value.clone(),
            Value::MemPos { id, offset } => {
                let mut s = crate::text::string_of("[");
                s.append(id.as_str());
                s.append(" + ");
                s.append(offset.as_str());
                s.append("]");
                s
            },
        }
    }
}

impl IrInstruction {
    /// The line of the instruction in the listing.
    pub fn to_string(&self) -> (s: String)
        ensures
            s@ == instruction_text(self@),
    {
        let mut s = String::new();
        match self {
            IrInstruction::Ass { dest, src } => {
                s.append("    ");
                s.append(dest.to_string().as_str());
                s.append(" = ");
                s.append(src.to_string().as_str());
            },
            IrInstruction::Not { dest, src } => {
                s.append("    ");
                s.append(dest.to_string().as_str());
                s.append(" = !");
                s.append(src.to_string().as_str());
            },
            IrInstruction::Op { dest, src1, op, src2 } => {
                s.append("    ");
                s.append(dest.to_string().as_str());
                s.append(" = ");
                s.append(src1.to_string().as_str());
                s.append(" ");
                s.append(op.to_str());
                s.append(" ");
                s.append(src2.to_string().as_str());
            },
            IrInstruction::Label(l) => {
                s.append(l.as_str());
                s.append(":");
            },
            IrInstruction::Goto { label } => {
                s.append("    goto ");
                s.append(label.as_str());
            },
            IrInstruction::IfGoto { src1, src2, cond, label } => {
                s.append("    if ");
                s.append(src1.to_string().as_str());
                s.append(" ");
                s.append(cond.to_str());
                s.append(" ");
                s.append(src2.to_string().as_str());
                s.append(" goto ");
                s.append(label.as_str());
            },
            IrInstruction::Param { src } => {
                s.append("    param ");
                s.append(src.to_string().as_str());
            },
            IrInstruction::Call { label } => {
                s.append("    call ");
                s.append(label.as_str());
            },
            IrInstruction::Ret { src } => {
                s.append("    ret ");
                s.append(src.to_string().as_str());
            },
        }
        assert(s@ =~= instruction_text(self@));
        s
    }
}

/// The listing of a program: its data section, then its code section.
pub open spec fn ir_text(data: Seq<BufferV>, code: Seq<InstrV>) -> Seq<char> {
    "section: data\n"@ + data_lines(data) + "\nsection: code\n"@ + code_lines(code)
}

/// The lines of the data section.
pub open spec fn data_lines(data: Seq<BufferV>) -> Seq<char>
    decreases data.len(),
{
    if data.len() == 0 {
        seq![]
    } else {
        data_lines(data.drop_last()) + "    "@ + data.last().label + " "@ + data.last().contents + "\n"@
    }
}

/// The lines of the code section.
pub open spec fn code_lines(code: Seq<InstrV>) -> Seq<char>
    decreases code.len(),
{
    if code.len() == 0 {
        seq![]
    } else {
        code_lines(code.drop_last()) + instruction_text(code.last()) + "\n"@
    }
}

impl Ir {
    /// An empty program.
    pub fn new() -> (ir: Ir)
        ensures
            ir.data@.len() == 0,
            ir.code@.len() == 0,
    {
        Ir { data: Vec::new(), code: Vec::new() }
    }

    /// Adds an instruction at the end of the code.
    pub fn add_instruction(&mut self, instruction: IrInstruction)
        ensures
            final(self).code@ == old(self).code@.push(instruction),
            final(self).data@ == old(self).data@,
    {
        self.code.push(instruction);
    }

    /// Adds a buffer at the end of the data.
    pub fn add_data(&mut self, label: String, contents: String, size: usize)
        ensures
            final(self).data@ == old(self).data@.push(Buffer { label, contents, size }),
            final(self).code@ == old(self).code@,
    {
        self.data.push(Buffer { label, contents, size });
    }

    /// The listing of the program.
    pub fn to_string(&self) -> (s: String)
        ensures
            s@ == ir_text(data_view(self.data@), code_view(self.code@)),
    {
        let mut s = crate::text::string_of("section: data\n");
        let mut i: usize = 0;
        let ghost dv = data_view(self.data@);
        let ghost cv = code_view(self.code@);
        assert(dv.take(0) =~= Seq::<BufferV>::empty());
        while i < self.data.len()
            invariant
                0 <= i <= self.data.len(),
                dv == data_view(self.data@),
                s@ == "section: data\n"@ + data_lines(dv.take(i as int)),
            decreases self.data.len() - i,
        {
            let ghost before = s@;
            s.append("    ");
            s.append(self.data[i].label.as_str());
            s.append(" ");
            s.append(self.data[i].contents.as_str());
            s.append("\n");
            assert(dv.take(i as int + 1).drop_last() =~= dv.take(i as int));
            assert(s@ =~= "section: data\n"@ + data_lines(dv.take(i as int + 1)));
            i += 1;
        }
        assert(dv.take(i as int) =~= dv);
        s.append("\nsection: code\n");
        let ghost head = s@;
        let mut j: usize = 0;
        assert(cv.take(0) =~= Seq::<InstrV>::empty());
        while j < self.code.len()
            invariant
                0 <= j <= self.code.len(),
                cv == code_view(self.code@),
                s@ == head + code_lines(cv.take(j as int)),
            decreases self.code.len() - j,
        {
            s.append(self.code[j].to_string().as_str());
            s.append("\n");
            assert(cv.take(j as int + 1).drop_last() =~= cv.take(j as int));
            assert(s@ =~= head + code_lines(cv.take(j as int + 1)));
            j += 1;
        }
        assert(cv.take(j as int) =~= cv);
        s
    }
}

} // verus!
