//! Operator names of the format and the sorts their results take.

use crate::sort::Sort;
use crate::text::tok_is;
use vstd::prelude::*;

verus! {
/// Operators with one operand.
#[derive(Debug, Clone, Copy, PartialEq, Eq, Structural)]
pub enum UniOpType {
    Not,
    Inc,
    Dec,
    Neg,
    Redand,
    Redor,
    Redxor,
}

impl UniOpType {
    /// The keyword that names the operator on a line.
    pub open spec fn spec_name(self) -> Seq<char> {
        match self {
            UniOpType::Not => "not"@,
            UniOpType::Inc => "inc"@,
            UniOpType::Dec => "dec"@,
            UniOpType::Neg => "neg"@,
            UniOpType::Redand => "redand"@,
            UniOpType::Redor => "redor"@,
            UniOpType::Redxor => "redxor"@,
        }
    }

    pub fn name(&self) -> (r: &'static str)
        ensures
            r@ == self.spec_name(),
    {
        match self {
            UniOpType::Not => "not",
            UniOpType::Inc => "inc",
            UniOpType::Dec => "dec",
            UniOpType::Neg => "neg",
            UniOpType::Redand => "redand",
            UniOpType::Redor => "redor",
            UniOpType::Redxor => "redxor",
        }
    }

    /// The operator that the keyword `kw` names, if any.
    pub open spec fn spec_from_name(kw: Seq<char>) -> Option<UniOpType> {
        if kw == "not"@ {
            Some(UniOpType::Not)
        } else if kw == "inc"@ {
            Some(UniOpType::Inc)
        } else if kw == "dec"@ {
            Some(UniOpType::Dec)
        } else if kw == "neg"@ {
            Some(UniOpType::Neg)
        } else if kw == "redand"@ {
            Some(UniOpType::Redand)
        } else if kw == "redor"@ {
            Some(UniOpType::Redor)
        } else if kw == "redxor"@ {
            Some(UniOpType::Redxor)
        } else {
            None
        }
    }

    /// The operator that `t` names, if any.
    pub fn from_name(t: &Vec<char>) -> (r: Option<UniOpType>)
        ensures
            r == Self::spec_from_name(t@),
            r matches Some(op) ==> op.spec_name() == t@,
    {
        if tok_is(t, "not") {
            return Some(UniOpType::Not);
        }
        if tok_is(t, "inc") {
            return Some(UniOpType::Inc);
        }
        if tok_is(t, "dec") {
            return Some(UniOpType::Dec);
        }
        if tok_is(t, "neg") {
            return Some(UniOpType::Neg);
        }
        if tok_is(t, "redand") {
            return Some(UniOpType::Redand);
        }
        if tok_is(t, "redor") {
            return Some(UniOpType::Redor);
        }
        if tok_is(t, "redxor") {
            return Some(UniOpType::Redxor);
        }
        None
    }
}

/// Operators with two operands.
#[derive(Debug, Clone, Copy, PartialEq, Eq, Structural)]
pub enum BiOpType {
    Iff,
    Implies,
    Eq,
    Neq,
    Sgt,
    Ugt,
    Sgte,
    Ugte,
    Slt,
    Ult,
    Slte,
    Ulte,
    And,
    Nand,
    Nor,
    Or,
    Xnor,
    Xor,
    Rol,
    Ror,
    Sll,
    Sra,
    Srl,
    Add,
    Mul,
    Sdiv,
    Udiv,
    Smod,
    Srem,
    Urem,
    Sub,
    Saddo,
    Uaddo,
    Sdivo,
    Udivo,
    Smulo,
    Umulo,
    Ssubo,
    Usubo,
    Concat,
    Read,
}

impl BiOpType {
    /// The keyword that names the operator on a line.
    pub open spec fn spec_name(self) -> Seq<char> {
        match self {
            BiOpType::Iff => "iff"@,
            BiOpType::Implies => "implies"@,
            BiOpType::Eq => "eq"@,
            BiOpType::Neq => "neq"@,
            BiOpType::Sgt => "sgt"@,
            BiOpType::Ugt => "ugt"@,
            BiOpType::Sgte => "sgte"@,
            BiOpType::Ugte => "ugte"@,
            BiOpType::Slt => "slt"@,
            BiOpType::Ult => "ult"@,
            BiOpType::Slte => "slte"@,
            BiOpType::Ulte => "ulte"@,
            BiOpType::And => "and"@,
            BiOpType::Nand => "nand"@,
            BiOpType::Nor => "nor"@,
            BiOpType::Or => "or"@,
            BiOpType::Xnor => "xnor"@,
            BiOpType::Xor => "xor"@,
            BiOpType::Rol => "rol"@,
            BiOpType::Ror => "ror"@,
            BiOpType::Sll => "sll"@,
            BiOpType::Sra => "sra"@,
            BiOpType::Srl => "srl"@,
            BiOpType::Add => "add"@,
            BiOpType::Mul => "mul"@,
            BiOpType::Sdiv => "sdiv"@,
            BiOpType::Udiv => "udiv"@,
            BiOpType::Smod => "smod"@,
            BiOpType::Srem => "srem"@,
            BiOpType::Urem => "urem"@,
            BiOpType::Sub => "sub"@,
            BiOpType::Saddo => "saddo"@,
            BiOpType::Uaddo => "uaddo"@,
            BiOpType::Sdivo => "sdivo"@,
            BiOpType::Udivo => "udivo"@,
            BiOpType::Smulo => "smulo"@,
            BiOpType::Umulo => "umulo"@,
            BiOpType::Ssubo => "ssubo"@,
            BiOpType::Usubo => "usubo"@,
            BiOpType::Concat => "concat"@,
            BiOpType::Read => "read"@,
        }
    }

    pub fn name(&self) -> (r: &'static str)
        ensures
            r@ == self.spec_name(),
    {
        match self {
            BiOpType::Iff => "iff",
            BiOpType::Implies => "implies",
            BiOpType::Eq => "eq",
            BiOpType::Neq => "neq",
            BiOpType::Sgt => "sgt",
            BiOpType::Ugt => "ugt",
            BiOpType::Sgte => "sgte",
            BiOpType::Ugte => "ugte",
            BiOpType::Slt => "slt",
            BiOpType::Ult => "ult",
            BiOpType::Slte => "slte",
            BiOpType::Ulte => "ulte",
            BiOpType::And => "and",
            BiOpType::Nand => "nand",
            BiOpType::Nor => "nor",
            BiOpType::Or => "or",
            BiOpType::Xnor => "xnor",
            BiOpType::Xor => "xor",
            BiOpType::Rol => "rol",
            BiOpType::Ror => "ror",
            BiOpType::Sll => "sll",
            BiOpType::Sra => "sra",
            BiOpType::Srl => "srl",
            BiOpType::Add => "add",
            BiOpType::Mul => "mul",
            BiOpType::Sdiv => "sdiv",
            BiOpType::Udiv => "udiv",
            BiOpType::Smod => "smod",
            BiOpType::Srem => "srem",
            BiOpType::Urem => "urem",
            BiOpType::Sub => "sub",
            BiOpType::Saddo => "saddo",
            BiOpType::Uaddo => "uaddo",
            BiOpType::Sdivo => "sdivo",
            BiOpType::Udivo => "udivo",
            BiOpType::Smulo => "smulo",
            BiOpType::Umulo => "umulo",
            BiOpType::Ssubo => "ssubo",
            BiOpType::Usubo => "usubo",
            BiOpType::Concat => "concat",
            BiOpType::Read => "read",
        }
    }

    /// The operator that the keyword `kw` names, if any.
    pub open spec fn spec_from_name(kw: Seq<char>) -> Option<BiOpType> {
        if kw == "iff"@ {
            Some(BiOpType::Iff)
        } else if kw == "implies"@ {
            Some(BiOpType::Implies)
        } else if kw == "eq"@ {
            Some(BiOpType::Eq)
        } else if kw == "neq"@ {
            Some(BiOpType::Neq)
        } else if kw == "sgt"@ {
            Some(BiOpType::Sgt)
        } else if kw == "ugt"@ {
            Some(BiOpType::Ugt)
        } else if kw == "sgte"@ {
            Some(BiOpType::Sgte)
        } else if kw == "ugte"@ {
            Some(BiOpType::Ugte)
        } else if kw == "slt"@ {
            Some(BiOpType::Slt)
        } else if kw == "ult"@ {
            Some(BiOpType::Ult)
        } else if kw == "slte"@ {
            Some(BiOpType::Slte)
        } else if kw == "ulte"@ {
            Some(BiOpType::Ulte)
        } else if kw == "and"@ {
            Some(BiOpType::And)
        } else if kw == "nand"@ {
            Some(BiOpType::Nand)
        } else if kw == "nor"@ {
            Some(BiOpType::Nor)
        } else if kw == "or"@ {
            Some(BiOpType::Or)
        } else if kw == "xnor"@ {
            Some(BiOpType::Xnor)
        } else if kw == "xor"@ {
            Some(BiOpType::Xor)
        } else if kw == "rol"@ {
            Some(BiOpType::Rol)
        } else if kw == "ror"@ {
            Some(BiOpType::Ror)
        } else if kw == "sll"@ {
            Some(BiOpType::Sll)
        } else if kw == "sra"@ {
            Some(BiOpType::Sra)
        } else if kw == "srl"@ {
            Some(BiOpType::Srl)
        } else if kw == "add"@ {
            Some(BiOpType::Add)
        } else if kw == "mul"@ {
            Some(BiOpType::Mul)
        } else if kw == "sdiv"@ {
            Some(BiOpType::Sdiv)
        } else if kw == "udiv"@ {
            Some(BiOpType::Udiv)
        } else if kw == "smod"@ {
            Some(BiOpType::Smod)
        } else if kw == "srem"@ {
            Some(BiOpType::Srem)
        } else if kw == "urem"@ {
            Some(BiOpType::Urem)
        } else if kw == "sub"@ {
            Some(BiOpType::Sub)
        } else if kw == "saddo"@ {
            Some(BiOpType::Saddo)
        } else if kw == "uaddo"@ {
            Some(BiOpType::Uaddo)
        } else if kw == "sdivo"@ {
            Some(BiOpType::Sdivo)
        } else if kw == "udivo"@ {
            Some(BiOpType::Udivo)
        } else if kw == "smulo"@ {
            Some(BiOpType::Smulo)
        } else if kw == "umulo"@ {
            Some(BiOpType::Umulo)
        } else if kw == "ssubo"@ {
            Some(BiOpType::Ssubo)
        } else if kw == "usubo"@ {
            Some(BiOpType::Usubo)
        } else if kw == "concat"@ {
            Some(BiOpType::Concat)
        } else if kw == "read"@ {
            Some(BiOpType::Read)
        } else {
            None
        }
    }

    /// The operator that `t` names, if any.
    pub fn from_name(t: &Vec<char>) -> (r: Option<BiOpType>)
        ensures
            r == Self::spec_from_name(t@),
            r matches Some(op) ==> op.spec_name() == t@,
    {
        if tok_is(t, "iff") {
            return Some(BiOpType::Iff);
        }
        if tok_is(t, "implies") {
            return Some(BiOpType::Implies);
        }
        if tok_is(t, "eq") {
            return Some(BiOpType::Eq);
        }
        if tok_is(t, "neq") {
            return Some(BiOpType::Neq);
        }
        if tok_is(t, "sgt") {
            return Some(BiOpType::Sgt);
        }
        if tok_is(t, "ugt") {
            return Some(BiOpType::Ugt);
        }
        if tok_is(t, "sgte") {
            return Some(BiOpType::Sgte);
        }
        if tok_is(t, "ugte") {
            return Some(BiOpType::Ugte);
        }
        if tok_is(t, "slt") {
            return Some(BiOpType::Slt);
        }
        if tok_is(t, "ult") {
            return Some(BiOpType::Ult);
        }
        if tok_is(t, "slte") {
            return Some(BiOpType::Slte);
        }
        if tok_is(t, "ulte") {
            return Some(BiOpType::Ulte);
        }
        if tok_is(t, "and") {
            return Some(BiOpType::And);
        }
        if tok_is(t, "nand") {
            return Some(BiOpType::Nand);
        }
        if tok_is(t, "nor") {
            return Some(BiOpType::Nor);
        }
        if tok_is(t, "or") {
            return Some(BiOpType::Or);
        }
        if tok_is(t, "xnor") {
            return Some(BiOpType::Xnor);
        }
        if tok_is(t, "xor") {
            return Some(BiOpType::Xor);
        }
        if tok_is(t, "rol") {
            return Some(BiOpType::Rol);
        }
        if tok_is(t, "ror") {
            return Some(BiOpType::Ror);
        }
        if tok_is(t, "sll") {
            return Some(BiOpType::Sll);
        }
        if tok_is(t, "sra") {
            return Some(BiOpType::Sra);
        }
        if tok_is(t, "srl") {
            return Some(BiOpType::Srl);
        }
        if tok_is(t, "add") {
            return Some(BiOpType::Add);
        }
        if tok_is(t, "mul") {
            return Some(BiOpType::Mul);
        }
        if tok_is(t, "sdiv") {
            return Some(BiOpType::Sdiv);
        }
        if tok_is(t, "udiv") {
            return Some(BiOpType::Udiv);
        }
        if tok_is(t, "smod") {
            return Some(BiOpType::Smod);
        }
        if tok_is(t, "srem") {
            return Some(BiOpType::Srem);
        }
        if tok_is(t, "urem") {
            return Some(BiOpType::Urem);
        }
        if tok_is(t, "sub") {
            return Some(BiOpType::Sub);
        }
        if tok_is(t, "saddo") {
            return Some(BiOpType::Saddo);
        }
        if tok_is(t, "uaddo") {
            return Some(BiOpType::Uaddo);
        }
        if tok_is(t, "sdivo") {
            return Some(BiOpType::Sdivo);
        }
        if tok_is(t, "udivo") {
            return Some(BiOpType::Udivo);
        }
        if tok_is(t, "smulo") {
            return Some(BiOpType::Smulo);
        }
        if tok_is(t, "umulo") {
            return Some(BiOpType::Umulo);
        }
        if tok_is(t, "ssubo") {
            return Some(BiOpType::Ssubo);
        }
        if tok_is(t, "usubo") {
            return Some(BiOpType::Usubo);
        }
        if tok_is(t, "concat") {
            return Some(BiOpType::Concat);
        }
        if tok_is(t, "read") {
            return Some(BiOpType::Read);
        }
        None
    }
}

/// Operators with three operands.
#[derive(Debug, Clone, Copy, PartialEq, Eq, Structural)]
pub enum TriOpType {
    Ite,
    Write,
}

impl TriOpType {
    /// The keyword that names the operator on a line.
    pub open spec fn spec_name(self) -> Seq<char> {
        match self {
            TriOpType::Ite => "ite"@,
            TriOpType::Write => "write"@,
        }
    }

    pub fn name(&self) -> (r: &'static str)
        ensures
            r@ == self.spec_name(),
    {
        match self {
            TriOpType::Ite => "ite",
            TriOpType::Write => "write",
        }
    }

    /// The operator that the keyword `kw` names, if any.
    pub open spec fn spec_from_name(kw: Seq<char>) -> Option<TriOpType> {
        if kw == "ite"@ {
            Some(TriOpType::Ite)
        } else if kw == "write"@ {
            Some(TriOpType::Write)
        } else {
            None
        }
    }

    /// The operator that `t` names, if any.
    pub fn from_name(t: &Vec<char>) -> (r: Option<TriOpType>)
        ensures
            r == Self::spec_from_name(t@),
            r matches Some(op) ==> op.spec_name() == t@,
    {
        if tok_is(t, "ite") {
            return Some(TriOpType::Ite);
        }
        if tok_is(t, "write") {
            return Some(TriOpType::Write);
        }
        None
    }
}

} // verus!
