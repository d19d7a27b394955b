//! The human-readable text of lowered programs.
use crate::mir::mir::{MirBlock, MirFunction, MirInstr, MirProgram};
use crate::text::{decimal, i64_to_string, int_text, join, joined, usize_to_string, views};
use vstd::prelude::*;
use vstd::string::StringExecFns;

verus! {

broadcast use vstd::std_specs::vec::group_vec_axioms;

/// The text of a boolean.
fn bool_text(b: bool) -> (r: &'static str)
    ensures
        r@ == (if b {
            "true"@
        } else {
            "false"@
        }),
{
    if b {
        "true"
    } else {
        "false"
    }
}

/// The text of a map entry: `"key": value`.
pub open spec fn entry_texts(entries: Seq<(String, String)>) -> Seq<Seq<char>> {
    Seq::new(entries.len(), |i: int| "\""@ + entries[i].0@ + "\": "@ + entries[i].1@)
}

/// The text of a struct field initialiser: `field: value`.
pub open spec fn field_texts(fields: Seq<(String, String)>) -> Seq<Seq<char>> {
    Seq::new(fields.len(), |i: int| fields[i].0@ + ": "@ + fields[i].1@)
}

/// `Let d = op l, r`.
pub open spec fn operation_text(op: Seq<char>, d: Seq<char>, l: Seq<char>, r: Seq<char>) -> Seq<char> {
    "Let "@ + d + " = "@ + op + " "@ + l + ", "@ + r
}

/// The text of an instruction.
pub open spec fn instr_text(i: MirInstr) -> Seq<char> {
    match i {
        MirInstr::ConstInt { name, value } => "Let "@ + name@ + " = "@ + int_text(value as int),
        MirInstr::ConstBool { name, value } => "Let "@ + name@ + " = "@ + (if value {
            "true"@
        } else {
            "false"@
        }),
        MirInstr::ConstString { name, value } => "Let "@ + name@ + " = \""@ + value@ + "\""@,
        MirInstr::Array { name, elements } => "Let "@ + name@ + " = ["@ + joined(views(elements@), ", "@) + "]"@,
        MirInstr::MapCreate { name, entries } => "Let "@ + name@ + " = { "@ + joined(entry_texts(entries@), ", "@)
            + " }"@,
        MirInstr::Assign { name, value, mutable } => (if mutable {
            "mut "@
        } else {
            Seq::empty()
        }) + name@ + " = "@ + value@,
        MirInstr::Arg { name } => "Arg "@ + name@,
        MirInstr::Return { values } => "ret ("@ + joined(views(values@), ", "@) + ")"@,
        MirInstr::Call { dest, func, args } => "Let "@ + (if dest@.len() == 1 {
            dest@[0]@
        } else {
            joined(views(dest@), ", "@)
        }) + " = "@ + func@ + "("@ + joined(views(args@), ", "@) + ")"@,
        MirInstr::Add(d, l, r) => operation_text("add"@, d@, l@, r@),
        MirInstr::Sub(d, l, r) => operation_text("sub"@, d@, l@, r@),
        MirInstr::Mul(d, l, r) => operation_text("mul"@, d@, l@, r@),
        MirInstr::Div(d, l, r) => operation_text("div"@, d@, l@, r@),
        MirInstr::BinaryOp(op, d, l, r) => operation_text(
            if op@ == "%"@ {
                "rem"@
            } else {
                op@
            },
            d@,
            l@,
            r@,
        ),
        MirInstr::Jump { target } => "jump "@ + target@,
        MirInstr::CondJump { cond, then_block, else_block } => "if "@ + cond@ + " then "@ + then_block@ + " else "@
            + else_block@,
        MirInstr::Print { values } => "print("@ + joined(views(values@), ", "@) + ")"@,
        MirInstr::StructInit { name, struct_name, fields } => name@ + " = "@ + struct_name@ + " { "@ + joined(
            field_texts(fields@),
            ", "@,
        ) + " }"@,
        MirInstr::EnumInit { name, enum_name, variant, value } => name@ + " = "@ + enum_name@ + "::"@ + variant@
            + match value {
            Some(v) => "("@ + v@ + ")"@,
            None => Seq::empty(),
        },
        MirInstr::TupleExtract { name, source, index } => "Let "@ + name@ + " = extract("@ + source@ + ", "@
            + decimal(index as nat) + ")"@,
        MirInstr::ArrayLen { name, array } => "Let "@ + name@ + " = len("@ + array@ + ")"@,
        MirInstr::ArrayGet { name, array, index } => "Let "@ + name@ + " = "@ + array@ + "["@ + index@ + "]"@,
        MirInstr::RangeCreate { name, start, end, inclusive } => "Let "@ + name@ + " = "@ + start@ + (if inclusive {
            "..="@
        } else {
            ".."@
        }) + end@,
        _ => "<unimplemented MIR instruction>"@,
    }
}

impl MirInstr {
    /// The instruction as text: `Let %1 = 42`, `x = %1`, `mut x = %2`,
    /// `Let %3 = add:int %1, %2`, `jump Block1`, `if %4 then Block2 else
    /// Block3`, `ret (%5)`, `print(%1, %2)`, ... (instructions without a
    /// text form give `<unimplemented MIR instruction>`).
    pub fn to_text(&self) -> (r: String)
        ensures
            r@ == instr_text(*self),
    {
        proof {
            reveal_strlit("");
        }
        match self {
            MirInstr::ConstInt { name, value } => {
                let mut s = String::from_str("Let ");
                s.append(name.as_str());
                s.append(" = ");
                s.append(i64_to_string(*value).as_str());
                s
            },
            MirInstr::ConstBool { name, value } => {
                let mut s = String::from_str("Let ");
                s.append(name.as_str());
                s.append(" = ");
                s.append(bool_text(*value));
                s
            },
            MirInstr::ConstString { name, value } => {
                let mut s = String::from_str("Let ");
                s.append(name.as_str());
                s.append(" = \"");
                s.append(value.as_str());
                s.append("\"");
                s
            },
            MirInstr::Array { name, elements } => {
                let mut s = String::from_str("Let ");
                s.append(name.as_str());
                s.append(" = [");
                s.append(join(elements, ", ").as_str());
                s.append("]");
                s
            },
            MirInstr::MapCreate { name, entries } => {
                let mut parts: Vec<String> = Vec::new();
                let mut i: usize = 0;
                while i < entries.len()
                    invariant
                        i <= entries.len(),
                        views(parts@) == entry_texts(entries@).take(i as int),
                    decreases entries.len() - i,
                {
                    let mut e = String::from_str("\"");
                    e.append(entries[i].0.as_str());
                    e.append("\": ");
                    e.append(entries[i].1.as_str());
                    let ghost prev = views(parts@);
                    parts.push(e);
                    assert(views(parts@) =~= prev.push(parts@[i as int]@));
                    i += 1;
                    assert(views(parts@) =~= entry_texts(entries@).take(i as int));
                }
                assert(entry_texts(entries@).take(entries.len() as int) =~= entry_texts(entries@));
                let mut s = String::from_str("Let ");
                s.append(name.as_str());
                s.append(" = { ");
                s.append(join(&parts, ", ").as_str());
                s.append(" }");
                s
            },
            MirInstr::Assign { name, value, mutable } => {
                let mut s = String::from_str(if *mutable {
                    "mut "
                } else {
                    ""
                });
                s.append(name.as_str());
                s.append(" = ");
                s.append(value.as_str());
                s
            },
            MirInstr::Arg { name } => {
                let mut s = String::from_str("Arg ");
                s.append(name.as_str());
                s
            },
            MirInstr::Return { values } => {
                let mut s = String::from_str("ret (");
                s.append(join(values, ", ").as_str());
                s.append(")");
                s
            },
            MirInstr::Call { dest, func, args } => {
                let mut s = String::from_str("Let ");
                if dest.len() == 1 {
                    s.append(dest[0].as_str());
                } else {
                    s.append(join(dest, ", ").as_str());
                }
                s.append(" = ");
                s.append(func.as_str());
                s.append("(");
                s.append(join(args, ", ").as_str());
                s.append(")");
                s
            },
            MirInstr::Add(d, l, r) => three_operand("add", d, l, r),
            MirInstr::Sub(d, l, r) => three_operand("sub", d, l, r),
            MirInstr::Mul(d, l, r) => three_operand("mul", d, l, r),
            MirInstr::Div(d, l, r) => three_operand("div", d, l, r),
            MirInstr::BinaryOp(op, d, l, r) => {
                if op.eq(&String::from_str("%")) {
                    three_operand("rem", d, l, r)
                } else {
                    three_operand(op.as_str(), d, l, r)
                }
            },
            MirInstr::Jump { target } => {
                let mut s = String::from_str("jump ");
                s.append(target.as_str());
                s
            },
            MirInstr::CondJump { cond, then_block, else_block } => {
                let mut s = String::from_str("if ");
                s.append(cond.as_str());
                s.append(" then ");
                s.append(then_block.as_str());
                s.append(" else ");
                s.append(else_block.as_str());
                s
            },
            MirInstr::Print { values } => {
                let mut s = String::from_str("print(");
                s.append(join(values, ", ").as_str());
                s.append(")");
                s
            },
            MirInstr::StructInit { name, struct_name, fields } => {
                let mut parts: Vec<String> = Vec::new();
                let mut i: usize = 0;
                while i < fields.len()
                    invariant
                        i <= fields.len(),
                        views(parts@) == field_texts(fields@).take(i as int),
                    decreases fields.len() - i,
                {
                    let mut e = fields[i].0.clone();
                    e.append(": ");
                    e.append(fields[i].1.as_str());
                    let ghost prev = views(parts@);
                    parts.push(e);
                    assert(views(parts@) =~= prev.push(parts@[i as int]@));
                    i += 1;
                    assert(views(parts@) =~= field_texts(fields@).take(i as int));
                }
                assert(field_texts(fields@).take(fields.len() as int) =~= field_texts(fields@));
                let mut s = name.clone();
                s.append(" = ");
                s.append(struct_name.as_str());
                s.append(" { ");
                s.append(join(&parts, ", ").as_str());
                s.append(" }");
                s
            },
            MirInstr::EnumInit { name, enum_name, variant, value } => {
                let mut s = name.clone();
                s.append(" = ");
                s.append(enum_name.as_str());
                s.append("::");
                s.append(variant.as_str());
                if let Some(v) = value {
                    s.append("(");
                    s.append(v.as_str());
                    s.append(")");
                }
                s
            },
            MirInstr::TupleExtract { name, source, index } => {
                let mut s = String::from_str("Let ");
                s.append(name.as_str());
                s.append(" = extract(");
                s.append(source.as_str());
                s.append(", ");
                s.append(usize_to_string(*index).as_str());
                s.append(")");
                s
            },
            MirInstr::ArrayLen { name, array } => {
                let mut s = String::from_str("Let ");
                s.append(name.as_str());
                s.append(" = len(");
                s.append(array.as_str());
                s.append(")");
                s
            },
            MirInstr::ArrayGet { name, array, index } => {
                let mut s = String::from_str("Let ");
                s.append(name.as_str());
                s.append(" = ");
                s.append(array.as_str());
                s.append("[");
                s.append(index.as_str());
                s.append("]");
                s
            },
            MirInstr::RangeCreate { name, start, end, inclusive } => {
                let mut s = String::from_str("Let ");
                s.append(name.as_str());
                s.append(" = ");
                s.append(start.as_str());
                s.append(if *inclusive {
                    "..="
                } else {
                    ".."
                });
                s.append(end.as_str());
                s
            },
            _ => String::from_str("<unimplemented MIR instruction>"),
        }
    }
}

/// `Let d = op l, r`.
fn three_operand(op: &str, d: &String, l: &String, r: &String) -> (s: String)
    ensures
        s@ == "Let "@ + d@ + " = "@ + op@ + " "@ + l@ + ", "@ + r@,
{
    let mut s = String::from_str("Let ");
    s.append(d.as_str());
    s.append(" = ");
    s.append(op);
    s.append(" ");
    s.append(l.as_str());
    s.append(", ");
    s.append(r.as_str());
    s
}

/// Each instruction on a line of its own behind `indent`.
pub open spec fn indented(v: Seq<MirInstr>, indent: Seq<char>) -> Seq<char>
    decreases v.len(),
{
    if v.len() == 0 {
        Seq::empty()
    } else {
        indented(v.drop_last(), indent) + indent + instr_text(v.last()) + "\n"@
    }
}

/// A block: its label, then its instructions and its terminator, indented.
pub open spec fn block_text(b: MirBlock) -> Seq<char> {
    "  "@ + b.label@ + ":\n"@ + indented(b.instrs@, "    "@) + match b.terminator {
        Some(t) => "    "@ + instr_text(t) + "\n"@,
        None => Seq::empty(),
    }
}

/// The blocks in order.
pub open spec fn blocks_text(v: Seq<MirBlock>) -> Seq<char>
    decreases v.len(),
{
    if v.len() == 0 {
        Seq::empty()
    } else {
        blocks_text(v.drop_last()) + block_text(v.last())
    }
}

/// The heading line of a function: `Function name(params) -> ReturnType`.
pub open spec fn function_heading(f: MirFunction) -> Seq<char> {
    "Function "@ + f.name@ + "("@ + joined(views(f.params@), ", "@) + ") -> "@ + match f.return_type {
        Some(t) => t@,
        None => "Void"@,
    } + "\n"@
}

/// A function: its heading, its blocks and an empty line.
pub open spec fn function_text(f: MirFunction) -> Seq<char> {
    function_heading(f) + blocks_text(f.blocks@) + "\n"@
}

/// The functions in order.
pub open spec fn functions_text(v: Seq<MirFunction>) -> Seq<char>
    decreases v.len(),
{
    if v.len() == 0 {
        Seq::empty()
    } else {
        functions_text(v.drop_last()) + function_text(v.last())
    }
}

/// The text of a program: a `Globals:` section with the global
/// instructions when there are any, then each function.
pub open spec fn program_text(p: MirProgram) -> Seq<char> {
    (if p.globals@.len() > 0 {
        "Globals:\n"@ + indented(p.globals@, "  "@) + "\n"@
    } else {
        Seq::empty()
    }) + functions_text(p.functions@)
}

impl MirProgram {
    /// The program as text: a `Globals:` section listing the global
    /// instructions (when there are any), then each function as
    /// `Function name(params) -> ReturnType` with its blocks, each label
    /// followed by its instructions and terminator.
    pub fn to_text(&self) -> (r: String)
        ensures
            r@ == program_text(*self),
    {
        let mut out = String::new();
        if self.globals.len() > 0 {
            out.append("Globals:\n");
            let mut i: usize = 0;
            assert(self.globals@.take(0) =~= Seq::<MirInstr>::empty());
            while i < self.globals.len()
                invariant
                    i <= self.globals.len(),
                    out@ == "Globals:\n"@ + indented(self.globals@.take(i as int), "  "@),
                decreases self.globals.len() - i,
            {
                out.append("  ");
                out.append(self.globals[i].to_text().as_str());
                out.append("\n");
                assert(self.globals@.take(i + 1).drop_last() =~= self.globals@.take(i as int));
                i += 1;
            }
            out.append("\n");
            assert(self.globals@.take(self.globals.len() as int) =~= self.globals@);
        }
        let ghost head = out@;
        assert(head == (if self.globals@.len() > 0 {
            "Globals:\n"@ + indented(self.globals@, "  "@) + "\n"@
        } else {
            Seq::<char>::empty()
        }));
        let mut f: usize = 0;
        assert(self.functions@.take(0) =~= Seq::<MirFunction>::empty());
        while f < self.functions.len()
            invariant
                f <= self.functions.len(),
                out@ == head + functions_text(self.functions@.take(f as int)),
            decreases self.functions.len() - f,
        {
            let ghost before = out@;
            let func = &self.functions[f];
            out.append("Function ");
            out.append(func.name.as_str());
            out.append("(");
            out.append(join(&func.params, ", ").as_str());
            out.append(") -> ");
            match &func.return_type {
                Some(t) => out.append(t.as_str()),
                None => out.append("Void"),
            }
            out.append("\n");
            let ghost heading = out@;
            assert(heading == before + function_heading(*func));
            let mut b: usize = 0;
            assert(func.blocks@.take(0) =~= Seq::<MirBlock>::empty());
            while b < func.blocks.len()
                invariant
                    b <= func.blocks.len(),
                    out@ == heading + blocks_text(func.blocks@.take(b as int)),
                decreases func.blocks.len() - b,
            {
                let ghost bb = out@;
                let block = &func.blocks[b];
                out.append("  ");
                out.append(block.label.as_str());
                out.append(":\n");
                let ghost lab = out@;
                let mut k: usize = 0;
                assert(block.instrs@.take(0) =~= Seq::<MirInstr>::empty());
                while k < block.instrs.len()
                    invariant
                        k <= block.instrs.len(),
                        out@ == lab + indented(block.instrs@.take(k as int), "    "@),
                    decreases block.instrs.len() - k,
                {
                    out.append("    ");
                    out.append(block.instrs[k].to_text().as_str());
                    out.append("\n");
                    assert(block.instrs@.take(k + 1).drop_last() =~= block.instrs@.take(k as int));
                    k += 1;
                }
                assert(block.instrs@.take(block.instrs.len() as int) =~= block.instrs@);
                if let Some(term) = &block.terminator {
                    out.append("    ");
                    out.append(term.to_text().as_str());
                    out.append("\n");
                }
                assert(out@ == bb + block_text(*block));
                assert(func.blocks@.take(b + 1).drop_last() =~= func.blocks@.take(b as int));
                b += 1;
            }
            assert(func.blocks@.take(func.blocks.len() as int) =~= func.blocks@);
            out.append("\n");
            assert(out@ == before + function_text(*func));
            assert(self.functions@.take(f + 1).drop_last() =~= self.functions@.take(f as int));
            f += 1;
        }
        assert(self.functions@.take(self.functions.len() as int) =~= self.functions@);
        out
    }
}

} // verus!
