use vstd::prelude::*;
use crate::error::Error;
use crate::hexcodec::{encode, hex_text, text_bytes};

verus! {

/// An entry point that a deployed contract may have, and the verifier key
/// that it must have for it, in the key's encoding.
#[derive(Debug)]
pub struct Constraint {
    pub entry_point: Vec<u8>,
    pub verifier_key: Vec<u8>,
}

/// An operation of a contract that a transaction deploys: its entry point,
/// and its verifier key in the key's encoding, where it has one.
#[derive(Debug)]
pub struct Operation {
    pub entry_point: Vec<u8>,
    pub verifier_key: Option<Vec<u8>>,
}

/// What a transaction does to a contract.
#[derive(Debug)]
pub enum ContractAction {
    /// It calls the contract at this address.
    Call { address: Vec<u8> },
    /// It deploys a contract with these operations, which gets this address.
    Deploy { address: Vec<u8>, operations: Vec<Operation> },
    /// It maintains a contract.
    Maintain,
}

/// What the whitelist reads of a transaction: the contract actions of a
/// standard transaction, where it has any. Other transactions have none.
#[derive(Debug)]
pub struct ContractActions {
    pub actions: Option<Vec<ContractAction>>,
}

/// The verifier key that `constraints` asks for the entry point `name`: that
/// of the first constraint for it.
pub open spec fn key_for(constraints: Seq<Constraint>, name: Seq<u8>) -> Option<Seq<u8>>
    decreases constraints.len(),
{
    if constraints.len() == 0 {
        None
    } else if constraints.first().entry_point@ == name {
        Some(constraints.first().verifier_key@)
    } else {
        key_for(constraints.drop_first(), name)
    }
}

/// Whether `constraints` allows the operation: it has a verifier key, and
/// it is the key asked for its entry point.
pub open spec fn operation_allowed(constraints: Seq<Constraint>, op: Operation) -> bool {
    op.verifier_key matches Some(key) && key_for(constraints, op.entry_point@) == Some(key@)
}

/// No two constraints are for the same entry point.
pub open spec fn distinct_constraints(constraints: Seq<Constraint>) -> bool {
    forall|i: int, j: int|
        0 <= i < j < constraints.len() ==> (#[trigger] constraints[i]).entry_point@ != (
        #[trigger] constraints[j]).entry_point@
}

/// No two operations are for the same entry point.
pub open spec fn distinct_operations(ops: Seq<Operation>) -> bool {
    forall|i: int, j: int|
        0 <= i < j < ops.len() ==> (#[trigger] ops[i]).entry_point@ != (#[trigger] ops[j]).entry_point@
}

/// Whether `constraints` allows a contract with the operations `ops`: the
/// contract has exactly the entry points of the constraints, each with the
/// verifier key asked for it. That is: no entry point occurs twice, among
/// the constraints or among the operations, each operation is allowed, and
/// there are as many operations as constraints.
pub open spec fn deploy_allowed(constraints: Seq<Constraint>, ops: Seq<Operation>) -> bool {
    &&& distinct_constraints(constraints)
    &&& distinct_operations(ops)
    &&& forall|i: int| 0 <= i < ops.len() ==> operation_allowed(constraints, #[trigger] ops[i])
    &&& ops.len() == constraints.len()
}

/// The one action of a transaction that the whitelist looks at: there is
/// one where the transaction has exactly one contract action.
pub open spec fn single_action(tx: ContractActions) -> Option<ContractAction> {
    match tx.actions {
        Some(actions) => if actions.len() == 1 {
            Some(actions[0])
        } else {
            None
        },
        None => None,
    }
}

/// The address that the transaction calls, in hexadecimal: there is one
/// where its only contract action is a call.
pub open spec fn spec_called_contract(tx: ContractActions) -> Option<Seq<char>> {
    match single_action(tx) {
        Some(ContractAction::Call { address }) => Some(hex_text(address@)),
        _ => None,
    }
}

/// The address of the contract that the transaction deploys, in
/// hexadecimal, where `constraints` allows that contract: its only contract
/// action is a deploy, and the operations of the contract are allowed.
pub open spec fn spec_check_deploy(constraints: Seq<Constraint>, tx: ContractActions) -> Option<
    Seq<char>,
> {
    match single_action(tx) {
        Some(ContractAction::Deploy { address, operations }) => if deploy_allowed(
            constraints,
            operations@,
        ) {
            Some(hex_text(address@))
        } else {
            None
        },
        _ => None,
    }
}

/// Whether two byte strings are the same.
pub fn same_bytes(a: &Vec<u8>, b: &Vec<u8>) -> (r: bool)
    ensures
        r == (a@ == b@),
{
    if a.len() != b.len() {
        return false;
    }
    let mut i: usize = 0;
    while i < a.len()
        invariant
            i <= a.len(),
            a.len() == b.len(),
            forall|k: int| 0 <= k < i ==> a[k] == b[k],
        decreases a.len() - i,
    {
        if a[i] != b[i] {
            return false;
        }
        i += 1;
    }
    assert(a@ =~= b@);
    true
}

/// The verifier key that `constraints` asks for the entry point `name`.
pub fn find_key<'a>(constraints: &'a Vec<Constraint>, name: &Vec<u8>) -> (r: Option<&'a Vec<u8>>)
    ensures
        r is Some <==> key_for(constraints@, name@) is Some,
        r matches Some(key) ==> key_for(constraints@, name@) == Some(key@),
{
    let mut i: usize = 0;
    assert(constraints@.skip(0) =~= constraints@);
    while i < constraints.len()
        invariant
            i <= constraints.len(),
            key_for(constraints@, name@) == key_for(constraints@.skip(i as int), name@),
        decreases constraints.len() - i,
    {
        assert(constraints@.skip(i as int).first() == constraints[i as int]);
        assert(constraints@.skip(i as int).drop_first() =~= constraints@.skip(i + 1));
        if same_bytes(&constraints[i].entry_point, name) {
            return Some(&constraints[i].verifier_key);
        }
        i += 1;
    }
    None
}

/// Whether no two constraints are for the same entry point.
pub fn constraints_distinct(constraints: &Vec<Constraint>) -> (r: bool)
    ensures
        r == distinct_constraints(constraints@),
{
    let mut j: usize = 0;
    while j < constraints.len()
        invariant
            j <= constraints.len(),
            forall|a: int, b: int|
                0 <= a < b < j ==> (#[trigger] constraints[a]).entry_point@ != (
                #[trigger] constraints[b]).entry_point@,
        decreases constraints.len() - j,
    {
        let mut i: usize = 0;
        while i < j
            invariant
                i <= j < constraints.len(),
                forall|a: int|
                    0 <= a < i ==> (#[trigger] constraints[a]).entry_point@
                        != constraints[j as int].entry_point@,
            decreases j - i,
        {
            if same_bytes(&constraints[i].entry_point, &constraints[j].entry_point) {
                return false;
            }
            i += 1;
        }
        j += 1;
    }
    true
}

/// Whether no two operations are for the same entry point.
pub fn operations_distinct(ops: &Vec<Operation>) -> (r: bool)
    ensures
        r == distinct_operations(ops@),
{
    let mut j: usize = 0;
    while j < ops.len()
        invariant
            j <= ops.len(),
            forall|a: int, b: int|
                0 <= a < b < j ==> (#[trigger] ops[a]).entry_point@ != (#[trigger] ops[b]).entry_point@,
        decreases ops.len() - j,
    {
        let mut i: usize = 0;
        while i < j
            invariant
                i <= j < ops.len(),
                forall|a: int|
                    0 <= a < i ==> (#[trigger] ops[a]).entry_point@ != ops[j as int].entry_point@,
            decreases j - i,
        {
            if same_bytes(&ops[i].entry_point, &ops[j].entry_point) {
                return false;
            }
            i += 1;
        }
        j += 1;
    }
    true
}

/// Whether `constraints` allows a contract with the operations `ops`.
pub fn operations_allowed(constraints: &Vec<Constraint>, ops: &Vec<Operation>) -> (r: bool)
    ensures
        r == deploy_allowed(constraints@, ops@),
{
    if !constraints_distinct(constraints) || !operations_distinct(ops) {
        return false;
    }
    let mut i: usize = 0;
    while i < ops.len()
        invariant
            i <= ops.len(),
            forall|k: int| 0 <= k < i ==> operation_allowed(constraints@, #[trigger] ops[k]),
        decreases ops.len() - i,
    {
        let asked = match find_key(constraints, &ops[i].entry_point) {
            Some(key) => key,
            None => {
                assert(!operation_allowed(constraints@, ops[i as int]));
                return false;
            },
        };
        match &ops[i].verifier_key {
            Some(key) => {
                if !same_bytes(asked, key) {
                    assert(!operation_allowed(constraints@, ops[i as int]));
                    return false;
                }
            },
            None => {
                assert(!operation_allowed(constraints@, ops[i as int]));
                return false;
            },
        }
        i += 1;
    }
    ops.len() == constraints.len()
}

/// The address of the contract that the transaction calls, in hexadecimal;
/// `None` where the transaction is not a single call of a contract. Whether
/// the relay knows the contract is for the caller to look up.
pub fn called_contract(tx: &ContractActions) -> (r: Option<String>)
    ensures
        r is Some <==> spec_called_contract(*tx) is Some,
        r matches Some(a) ==> spec_called_contract(*tx) == Some(a@),
{
    match &tx.actions {
        Some(actions) => {
            if actions.len() != 1 {
                return None;
            }
            match &actions[0] {
                ContractAction::Call { address } => Some(encode(address.as_slice())),
                _ => None,
            }
        },
        None => None,
    }
}

/// The address of the contract that the transaction deploys, in
/// hexadecimal, where `constraints` allows the contract; `None` where the
/// transaction is not a single deploy, or the contract is not allowed.
pub fn check_deploy(constraints: &Vec<Constraint>, tx: &ContractActions) -> (r: Option<String>)
    ensures
        r is Some <==> spec_check_deploy(constraints@, *tx) is Some,
        r matches Some(a) ==> spec_check_deploy(constraints@, *tx) == Some(a@),
{
    match &tx.actions {
        Some(actions) => {
            if actions.len() != 1 {
                return None;
            }
            match &actions[0] {
                ContractAction::Deploy { address, operations } => {
                    if operations_allowed(constraints, operations) {
                        Some(encode(address.as_slice()))
                    } else {
                        None
                    }
                },
                _ => None,
            }
        },
        None => None,
    }
}

/// The address of the contract that the transaction calls, where the relay
/// knows that contract: `known` says whether it knows the contract at the
/// address that `called_contract` gives.
pub fn check_call(tx: &ContractActions, known: bool) -> (r: Option<String>)
    ensures
        r is Some <==> known && spec_called_contract(*tx) is Some,
        r matches Some(a) ==> spec_called_contract(*tx) == Some(a@),
{
    match called_contract(tx) {
        Some(address) => if known {
            Some(address)
        } else {
            None
        },
        None => None,
    }
}

/// Decides whether the whitelist lets a transaction pass: it does where
/// the transaction calls a contract that the relay knows, or deploys a
/// contract that the constraints allow. The result is the address of a
/// newly deployed contract, if there is one.
pub fn verdict(known_call: bool, deploy: Option<String>) -> (r: Result<Option<String>, Error>)
    ensures
        r is Ok <==> known_call || deploy is Some,
        r matches Ok(address) ==> if known_call {
            address is None
        } else {
            address == deploy
        },
        r matches Err(e) ==> e.is_bad_request("Transaction not allowed"@),
{
    if known_call {
        Ok(None)
    } else {
        match deploy {
            Some(address) => Ok(Some(address)),
            None => Err(Error::bad_request("Transaction not allowed")),
        }
    }
}

/// The index of the first dot of `name` at or after `from`, or the length
/// of `name` where there is none.
pub open spec fn dot_from(name: Seq<u8>, from: int) -> int
    decreases name.len() - from,
{
    if from >= name.len() {
        name.len() as int
    } else if name[from] == 46 {
        from
    } else {
        dot_from(name, from + 1)
    }
}

/// The bytes of the word `verifier`.
pub open spec fn verifier_word() -> Seq<u8> {
    seq![118u8, 101u8, 114u8, 105u8, 102u8, 105u8, 101u8, 114u8]
}

/// The entry point for which a file of the given name holds the verifier
/// key: the part of the name before its first dot, where the part after
/// that dot, up to the next one, is `verifier`.
pub open spec fn spec_constraint_name(name: Seq<u8>) -> Option<Seq<u8>> {
    let first = dot_from(name, 0);
    let second = dot_from(name, first + 1);
    if first < name.len() && name.subrange(first + 1, second) == verifier_word() {
        Some(name.subrange(0, first))
    } else {
        None
    }
}

/// The index of the first dot of `name` at or after `from`.
fn find_dot(name: &[u8], from: usize) -> (at: usize)
    requires
        from <= name.len(),
    ensures
        at == dot_from(name@, from as int),
        from <= at <= name.len(),
{
    let mut at: usize = from;
    while at < name.len() && name[at] != 46
        invariant
            from <= at <= name.len(),
            dot_from(name@, from as int) == dot_from(name@, at as int),
        decreases name.len() - at,
    {
        at += 1;
    }
    at
}

/// The entry point for which a file of the name `file_name` holds the
/// verifier key, or `None` where the file holds none: a key is held by
/// files named after an entry point, a dot and `verifier`, whatever follows
/// a second dot.
pub fn constraint_name(file_name: &str) -> (r: Option<Vec<u8>>)
    ensures
        r is Some <==> spec_constraint_name(text_bytes(file_name@)) is Some,
        r matches Some(name) ==> spec_constraint_name(text_bytes(file_name@)) == Some(name@),
{
    let bytes = file_name.as_bytes();
    let first = find_dot(bytes, 0);
    if first >= bytes.len() {
        return None;
    }
    let second = find_dot(bytes, first + 1);
    let ghost part = bytes@.subrange(first + 1, second as int);
    if second - first - 1 != 8 {
        assert(part.len() != verifier_word().len());
        return None;
    }
    let word: [u8; 8] = [118, 101, 114, 105, 102, 105, 101, 114];
    let mut i: usize = 0;
    while i < 8
        invariant
            i <= 8,
            first + 9 == second <= bytes.len(),
            bytes@ == text_bytes(file_name@),
            first == dot_from(bytes@, 0),
            second == dot_from(bytes@, first + 1),
            part == bytes@.subrange(first + 1, second as int),
            word@ == verifier_word(),
            forall|k: int| 0 <= k < i ==> part[k] == word[k],
        decreases 8 - i,
    {
        assert(part[i as int] == bytes@[first + 1 + i]);
        assert(word@[i as int] == verifier_word()[i as int]);
        if bytes[first + 1 + i] != word[i] {
            assert(part[i as int] != verifier_word()[i as int]);
            assert(part != verifier_word());
            return None;
        }
        i += 1;
    }
    assert(part =~= verifier_word());
    let mut name: Vec<u8> = Vec::new();
    let mut j: usize = 0;
    while j < first
        invariant
            j <= first <= bytes.len(),
            name@ == bytes@.subrange(0, j as int),
        decreases first - j,
    {
        name.push(bytes[j]);
        assert(name@ =~= bytes@.subrange(0, j + 1));
        j += 1;
    }
    Some(name)
}

} // verus!
