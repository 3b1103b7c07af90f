use paymaster::error::Error;
use paymaster::whitelisting::{
    called_contract, check_call, check_deploy, constraint_name, find_key, operations_allowed,
    same_bytes, verdict, Constraint, ContractAction, ContractActions, Operation,
};

fn constraints() -> Vec<Constraint> {
    vec![
        Constraint { entry_point: b"join".to_vec(), verifier_key: vec![1, 1] },
        Constraint { entry_point: b"move".to_vec(), verifier_key: vec![2, 2] },
    ]
}

fn op(name: &[u8], key: Option<Vec<u8>>) -> Operation {
    Operation { entry_point: name.to_vec(), verifier_key: key }
}

fn deploy(ops: Vec<Operation>) -> ContractActions {
    ContractActions {
        actions: Some(vec![ContractAction::Deploy { address: vec![0xde, 0xad], operations: ops }]),
    }
}

#[test]
fn deploy_with_the_asked_keys_is_allowed() {
    let tx = deploy(vec![op(b"move", Some(vec![2, 2])), op(b"join", Some(vec![1, 1]))]);
    assert_eq!(check_deploy(&constraints(), &tx), Some("dead".to_string()));
}

#[test]
fn deploy_with_a_wrong_missing_or_unknown_key_is_refused() {
    let c = constraints();
    assert_eq!(check_deploy(&c, &deploy(vec![op(b"move", Some(vec![2, 3])), op(b"join", Some(vec![1, 1]))])), None);
    assert_eq!(check_deploy(&c, &deploy(vec![op(b"move", None), op(b"join", Some(vec![1, 1]))])), None);
    assert_eq!(check_deploy(&c, &deploy(vec![op(b"fly", Some(vec![2, 2])), op(b"join", Some(vec![1, 1]))])), None);
}

#[test]
fn deploy_with_too_few_operations_is_refused() {
    let c = constraints();
    assert_eq!(check_deploy(&c, &deploy(vec![op(b"join", Some(vec![1, 1]))])), None);
    assert_eq!(check_deploy(&vec![], &deploy(vec![])), Some("dead".to_string()));
    assert!(operations_allowed(&vec![], &vec![]));
    assert!(!operations_allowed(&c, &vec![]));
}

#[test]
fn deploy_with_a_repeated_entry_point_is_refused() {
    let c = constraints();
    let twice = deploy(vec![op(b"join", Some(vec![1, 1])), op(b"join", Some(vec![1, 1]))]);
    assert_eq!(check_deploy(&c, &twice), None);
    let mut doubled = constraints();
    doubled[1] = Constraint { entry_point: b"join".to_vec(), verifier_key: vec![1, 1] };
    let ok = deploy(vec![op(b"move", Some(vec![2, 2])), op(b"join", Some(vec![1, 1]))]);
    assert_eq!(check_deploy(&doubled, &ok), None);
    assert_eq!(check_deploy(&doubled, &twice), None);
}

#[test]
fn only_a_single_deploy_is_looked_at() {
    let c = constraints();
    let ok = vec![op(b"move", Some(vec![2, 2])), op(b"join", Some(vec![1, 1]))];
    let two = ContractActions {
        actions: Some(vec![
            ContractAction::Deploy { address: vec![1], operations: ok },
            ContractAction::Maintain,
        ]),
    };
    assert_eq!(check_deploy(&c, &two), None);
    assert_eq!(check_deploy(&c, &ContractActions { actions: None }), None);
    assert_eq!(check_deploy(&c, &ContractActions { actions: Some(vec![]) }), None);
    let call = ContractActions { actions: Some(vec![ContractAction::Call { address: vec![1] }]) };
    assert_eq!(check_deploy(&c, &call), None);
}

#[test]
fn called_contract_is_the_address_of_a_single_call() {
    let call = ContractActions { actions: Some(vec![ContractAction::Call { address: vec![0x0a, 0xff] }]) };
    assert_eq!(called_contract(&call), Some("0aff".to_string()));
    assert_eq!(check_call(&call, true), Some("0aff".to_string()));
    assert_eq!(check_call(&call, false), None);
    let two = ContractActions {
        actions: Some(vec![
            ContractAction::Call { address: vec![1] },
            ContractAction::Call { address: vec![2] },
        ]),
    };
    assert_eq!(called_contract(&two), None);
    assert_eq!(called_contract(&deploy(vec![])), None);
    assert_eq!(called_contract(&ContractActions { actions: None }), None);
    assert_eq!(check_call(&ContractActions { actions: None }, true), None);
}

#[test]
fn verdict_lets_known_calls_and_allowed_deploys_pass() {
    assert!(matches!(verdict(true, None), Ok(None)));
    assert!(matches!(verdict(true, Some("ab".to_string())), Ok(None)));
    assert!(matches!(verdict(false, Some("ab".to_string())), Ok(Some(a)) if a == "ab"));
    assert!(matches!(verdict(false, None), Err(Error::BadRequest(m)) if m == "Transaction not allowed"));
}

#[test]
fn find_key_takes_the_first_constraint_of_the_name() {
    let mut c = constraints();
    c.push(Constraint { entry_point: b"join".to_vec(), verifier_key: vec![9] });
    assert_eq!(find_key(&c, &b"join".to_vec()), Some(&vec![1, 1]));
    assert_eq!(find_key(&c, &b"move".to_vec()), Some(&vec![2, 2]));
    assert_eq!(find_key(&c, &b"mov".to_vec()), None);
}

#[test]
fn same_bytes_compares_contents() {
    assert!(same_bytes(&vec![1, 2], &vec![1, 2]));
    assert!(!same_bytes(&vec![1, 2], &vec![1, 3]));
    assert!(!same_bytes(&vec![1, 2], &vec![1]));
    assert!(same_bytes(&vec![], &vec![]));
}

#[test]
fn constraint_name_reads_verifier_files() {
    assert_eq!(constraint_name("join.verifier"), Some(b"join".to_vec()));
    assert_eq!(constraint_name("join.verifier.bak"), Some(b"join".to_vec()));
    assert_eq!(constraint_name(".verifier"), Some(vec![]));
    assert_eq!(constraint_name("join.prover"), None);
    assert_eq!(constraint_name("join.verifiers"), None);
    assert_eq!(constraint_name("join.verifie"), None);
    assert_eq!(constraint_name("join.x.verifier"), None);
    assert_eq!(constraint_name("join"), None);
    assert_eq!(constraint_name(""), None);
}
