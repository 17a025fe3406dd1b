//! The referential-integrity pass: every `Account(name)` parameter must name
//! a declared account definition. Nothing else is checked here, on purpose;
//! expression typing and duplicate names are outside this pass.

use vstd::prelude::*;

use crate::ast::{AccountDef, ParamType, Program};

verus! {

/// The error of the integrity pass: it names the first account reference
/// that no account definition declares.
#[derive(Debug, PartialEq)]
pub struct ValidationError {
    pub account_name: String,
}

/// The message spelled out for a [`ValidationError`].
pub open spec fn validation_message_view(name: Seq<char>) -> Seq<char> {
    "Unknown account type: "@ + name
}

impl ValidationError {
    /// The error spelled out, naming the offending account reference.
    pub fn message(&self) -> (r: String)
        ensures
            r@ == validation_message_view(self.account_name@),
    {
        let mut s = String::from_str("Unknown account type: ");
        s.append(self.account_name.as_str());
        s
    }
}

/// Whether some account definition in `accounts` is named `name`.
pub open spec fn declares_account(accounts: Seq<AccountDef>, name: Seq<char>) -> bool {
    exists|k: int| 0 <= k < accounts.len() && #[trigger] accounts[k].name@ == name
}

/// Whether one parameter kind resolves: an account reference must name a
/// declared account definition, every other kind always resolves.
pub open spec fn param_resolves(accounts: Seq<AccountDef>, ty: ParamType) -> bool {
    ty matches ParamType::Account(n) ==> declares_account(accounts, n@)
}

/// Whether every account reference of every instruction parameter resolves.
pub open spec fn refs_valid(p: Program) -> bool {
    forall|i: int, j: int|
        0 <= i < p.instructions@.len() && 0 <= j < p.instructions@[i].params@.len()
            ==> param_resolves(p.accounts@, #[trigger] p.instructions@[i].params@[j].ty)
}

/// Whether `name` is the first account reference, in instruction order and
/// then parameter order, that fails to resolve.
pub open spec fn first_invalid_ref(p: Program, name: Seq<char>) -> bool {
    exists|i: int, j: int|
        {
            &&& 0 <= i < p.instructions@.len()
            &&& 0 <= j < p.instructions@[i].params@.len()
            &&& (#[trigger] p.instructions@[i].params@[j].ty) matches ParamType::Account(n)
                && n@ == name && !declares_account(p.accounts@, n@)
            &&& forall|i2: int, j2: int|
                0 <= i2 < p.instructions@.len() && 0 <= j2 < p.instructions@[i2].params@.len()
                    && (i2 < i || (i2 == i && j2 < j)) ==> param_resolves(
                    p.accounts@,
                    #[trigger] p.instructions@[i2].params@[j2].ty,
                )
        }
}

fn account_is_declared(accounts: &Vec<AccountDef>, name: &str) -> (r: bool)
    ensures
        r == declares_account(accounts@, name@),
{
    let mut k: usize = 0;
    while k < accounts.len()
        invariant
            k <= accounts@.len(),
            forall|k2: int| 0 <= k2 < k ==> #[trigger] accounts@[k2].name@ != name@,
        decreases accounts@.len() - k,
    {
        if crate::strings::str_eq(accounts[k].name.as_str(), name) {
            return true;
        }
        k += 1;
    }
    false
}

/// The checked program: an abstract syntax tree that has passed the
/// referential-integrity check unchanged.
#[derive(Debug, PartialEq)]
pub struct Hir {
    pub program: Program,
}

impl Hir {
    /// Checks every `Account(name)` parameter reference against the declared
    /// account definitions: the program passes through unchanged exactly when
    /// all of them resolve, and the first mismatch aborts, naming the
    /// offending reference.
    pub fn from_ast(program: Program) -> (r: Result<Hir, ValidationError>)
        ensures
            r matches Ok(h) ==> h.program == program && refs_valid(program),
            r matches Err(e) ==> !refs_valid(program) && first_invalid_ref(
                program,
                e.account_name@,
            ),
    {
        let ghost p = program;
        let instr_count = program.instructions.len();
        let mut i: usize = 0;
        while i < instr_count
            invariant
                p == program,
                instr_count == p.instructions@.len(),
                i <= instr_count,
                forall|i2: int, j2: int|
                    0 <= i2 < i && 0 <= j2 < p.instructions@[i2].params@.len()
                        ==> param_resolves(
                        p.accounts@,
                        #[trigger] p.instructions@[i2].params@[j2].ty,
                    ),
            decreases instr_count - i,
        {
            let param_count = program.instructions[i].params.len();
            let mut j: usize = 0;
            while j < param_count
                invariant
                    p == program,
                    instr_count == p.instructions@.len(),
                    i < instr_count,
                    param_count == p.instructions@[i as int].params@.len(),
                    j <= param_count,
                    forall|i2: int, j2: int|
                        0 <= i2 < i && 0 <= j2 < p.instructions@[i2].params@.len()
                            ==> param_resolves(
                            p.accounts@,
                            #[trigger] p.instructions@[i2].params@[j2].ty,
                        ),
                    forall|j2: int|
                        0 <= j2 < j ==> param_resolves(
                        p.accounts@,
                        #[trigger] p.instructions@[i as int].params@[j2].ty,
                    ),
                decreases param_count - j,
            {
                let param = &program.instructions[i].params[j];
                if let ParamType::Account(name) = &param.ty {
                    if !account_is_declared(&program.accounts, name.as_str()) {
                        proof {
                            assert(first_invalid_ref(p, name@));
                            assert(!refs_valid(p));
                        }
                        return Err(ValidationError { account_name: name.clone() });
                    }
                }
                j += 1;
            }
            i += 1;
        }
        Ok(Hir { program })
    }
}

} // verus!
