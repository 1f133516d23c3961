//! The errors that checking a program finds, kept in order of position.
use vstd::prelude::*;
use crate::positioned::{PositionedList, insert_positioned, insert_all, lemma_insert_all_empty};
use crate::syntax_analysis::parser::op::{Op, op_text};
use crate::text::{decimal, decimal_string, push_decimal};

verus! {

/// What is wrong at a position.
#[derive(Debug, PartialEq, Eq)]
pub enum ErrorKind {
    UndeclaredVariable { var: String },
    AlreadyDeclared { var: String },
    OperationNotImplemented { op: Op, type1: String, type2: String },
    MismatchedTypes { expected: String, found: String },
    InvalidArray,
    InvalidIdentifier,
    UndefinedType { type1: String },
    UndefinedProcedure,
}

/// The value of an error kind.
pub enum ErrorKindV {
    UndeclaredVariable { var: Seq<char> },
    AlreadyDeclared { var: Seq<char> },
    OperationNotImplemented { op: Op, type1: Seq<char>, type2: Seq<char> },
    MismatchedTypes { expected: Seq<char>, found: Seq<char> },
    InvalidArray,
    InvalidIdentifier,
    UndefinedType { type1: Seq<char> },
    UndefinedProcedure,
}

impl View for ErrorKind {
    type V = ErrorKindV;

    open spec fn view(&self) -> ErrorKindV {
        match self {
            ErrorKind::UndeclaredVariable { var } => ErrorKindV::UndeclaredVariable { var: var@ },
            ErrorKind::AlreadyDeclared { var } => ErrorKindV::AlreadyDeclared { var: var@ },
            ErrorKind::OperationNotImplemented { op, type1, type2 } => ErrorKindV::OperationNotImplemented {
                op: *op,
                type1: type1@,
                type2: type2@,
            },
            ErrorKind::MismatchedTypes { expected, found } => ErrorKindV::MismatchedTypes {
                expected: expected@,
                found: found@,
            },
            ErrorKind::InvalidArray => ErrorKindV::InvalidArray,
            ErrorKind::InvalidIdentifier => ErrorKindV::InvalidIdentifier,
            ErrorKind::UndefinedType { type1 } => ErrorKindV::UndefinedType { type1: type1@ },
            ErrorKind::UndefinedProcedure => ErrorKindV::UndefinedProcedure,
        }
    }
}

/// The values of error entries.
pub open spec fn entries_view(s: Seq<(usize, usize, ErrorKind)>) -> Seq<(usize, usize, ErrorKindV)> {
    s.map_values(|e: (usize, usize, ErrorKind)| (e.0, e.1, e.2@))
}

/// Adding an error and then taking values is taking values and then adding the value.
pub proof fn lemma_insert_view(s: Seq<(usize, usize, ErrorKind)>, e: (usize, usize, ErrorKind))
    ensures
        entries_view(insert_positioned(s, e)) == insert_positioned(entries_view(s), (e.0, e.1, e.2@)),
    decreases s.len(),
{
    let ev = (e.0, e.1, e.2@);
    if s.len() == 0 {
        assert(entries_view(seq![e]) =~= seq![ev]);
    } else if s[0].0 == e.0 && s[0].1 == e.1 {
    } else if crate::positioned::before((e.0, e.1), (s[0].0, s[0].1)) {
        assert(entries_view(seq![e] + s) =~= seq![ev] + entries_view(s));
    } else {
        lemma_insert_view(s.drop_first(), e);
        assert(entries_view(s).drop_first() =~= entries_view(s.drop_first()));
        assert(entries_view(seq![s[0]] + insert_positioned(s.drop_first(), e)) =~= seq![entries_view(s)[0]]
            + entries_view(insert_positioned(s.drop_first(), e)));
    }
}

/// The errors found so far, in order of position, at most one per position: of two errors
/// at one position the first stays.
pub struct Errors {
    errors: PositionedList<ErrorKind>,
}

/// The text after the position in the message of an error.
pub open spec fn error_detail(kind: ErrorKind) -> Seq<char> {
    match kind {
        ErrorKind::UndeclaredVariable { var } => "use of undeclared variable '"@ + var@ + "'"@,
        ErrorKind::AlreadyDeclared { var } => "'"@ + var@ + "' previously declared"@,
        ErrorKind::OperationNotImplemented { op, type1, type2 } => "operation '"@ + op_text(op)
            + "' not implemented between types '"@ + type1@ + "' and '"@ + type2@ + "'"@,
        ErrorKind::MismatchedTypes { expected, found } => "mismatched types\n\texpected '"@
            + expected@ + "', found '"@ + found@ + "'"@,
        ErrorKind::InvalidArray => "All array elements must have the same type"@,
        ErrorKind::InvalidIdentifier => "invalid identifier"@,
        ErrorKind::UndefinedType { type1 } => "undefined type '"@ + type1@ + "'"@,
        ErrorKind::UndefinedProcedure => "undefined procedure"@,
    }
}

/// The line printed for an error: `line:col: ` and what is wrong.
pub open spec fn error_message(line: usize, col: usize, kind: ErrorKind) -> Seq<char> {
    decimal(line as nat) + ":"@ + decimal(col as nat) + ": "@ + error_detail(kind) + "\n"@
}

impl Errors {
    /// The errors, in order of position.
    pub closed spec fn entries(&self) -> Seq<(usize, usize, ErrorKind)> {
        self.errors.entries()
    }

    /// The values of the errors, in order of position.
    pub open spec fn view_entries(&self) -> Seq<(usize, usize, ErrorKindV)> {
        entries_view(self.entries())
    }

    /// No errors.
    pub fn new() -> (e: Errors)
        ensures
            e.entries() == Seq::<(usize, usize, ErrorKind)>::empty(),
    {
        Errors { errors: PositionedList::new() }
    }

    /// Records an error at a position, unless one is already recorded there.
    pub fn add(&mut self, kind: ErrorKind, line: usize, col: usize)
        ensures
            final(self).entries() == insert_positioned(old(self).entries(), (line, col, kind)),
            final(self).view_entries() == insert_positioned(old(self).view_entries(), (line, col, kind@)),
    {
        proof {
            lemma_insert_view(self.entries(), (line, col, kind));
        }
        self.errors.insert(line, col, kind);
    }

    /// Errors made by `new` and then `add` of each of `es` call for an abort exactly when
    /// `es` is not empty: `should_abort` returns whether the entries are not empty.
    pub proof fn lemma_abort_after_additions(&self, es: Seq<(usize, usize, ErrorKind)>)
        requires
            self.entries() == insert_all(Seq::<(usize, usize, ErrorKind)>::empty(), es),
        ensures
            (self.entries().len() > 0) == (es.len() > 0),
    {
        lemma_insert_all_empty(es);
    }

    /// Whether any error was recorded.
    pub fn should_abort(&self) -> (r: bool)
        ensures
            r == (self.entries().len() > 0),
    {
        !self.errors.is_empty()
    }

    /// The number of errors.
    pub fn len(&self) -> (r: usize)
        ensures
            r == self.entries().len(),
    {
        self.errors.len()
    }

    /// The printed line of the `i`-th error.
    pub fn message(&self, i: usize) -> (r: String)
        requires
            i < self.entries().len(),
        ensures
            r@ == error_message(self.entries()[i as int].0, self.entries()[i as int].1, self.entries()[i as int].2),
    {
        let entry = self.errors.get(i);
        let mut r = decimal_string(entry.0 as u64);
        r.append(":");
        push_decimal(&mut r, entry.1 as u64);
        r.append(": ");
        match &entry.2 {
            ErrorKind::UndeclaredVariable { var } => {
                r.append("use of undeclared variable '");
                r.append(var.as_str());
                r.append("'");
            },
            ErrorKind::AlreadyDeclared { var } => {
                r.append("'");
                r.append(var.as_str());
                r.append("' previously declared");
            },
            ErrorKind::OperationNotImplemented { op, type1, type2 } => {
                r.append("operation '");
                r.append(op.to_str());
                r.append("' not implemented between types '");
                r.append(type1.as_str());
                r.append("' and '");
                r.append(type2.as_str());
                r.append("'");
            },
            ErrorKind::MismatchedTypes { expected, found } => {
                r.append("mismatched types\n\texpected '");
                r.append(expected.as_str());
                r.append("', found '");
                r.append(found.as_str());
                r.append("'");
            },
            ErrorKind::InvalidArray => {
                r.append("All array elements must have the same type");
            },
            ErrorKind::InvalidIdentifier => {
                r.append("invalid identifier");
            },
            ErrorKind::UndefinedType { type1 } => {
                r.append("undefined type '");
                r.append(type1.as_str());
                r.append("'");
            },
            ErrorKind::UndefinedProcedure => {
                r.append("undefined procedure");
            },
        }
        r.append("\n");
        assert(r@ =~= error_message(entry.0, entry.1, entry.2));
        r
    }
}

} // verus!
