#![allow(dead_code)]

use solhunt::ast::{
    ContractDefinition, ContractKind, FunctionDefinition, FunctionKind,
    IdentifierOrIdentifierPath, ModifierDefinition, ModifierInvocation, Mutability, Node,
    NodeKind, SourceUnit, Src, VariableDeclaration, Visibility,
};
use solhunt::findings::AllFindings;
use solhunt::rules::Rule;
use solhunt::version::Version;
use solhunt::walker::{CompiledUnit, SourceMapEntry, Walker};

fn n(kind: NodeKind, src: Src, children: Vec<Node>) -> Node {
    Node { kind, src, children }
}

fn hidden() -> Src {
    Src { start: None, length: None, index: None }
}

fn at(text: &str, pat: &str, occ: usize) -> Src {
    let mut from = 0;
    let mut left = occ;
    loop {
        let p = from + text[from..].find(pat).expect("pattern not in source");
        if left == 0 {
            return Src { start: Some(p), length: Some(pat.len()), index: Some(0) };
        }
        left -= 1;
        from = p + 1;
    }
}

fn s(x: &str) -> String {
    x.to_string()
}

fn su_root(path: &str, id: u64, children: Vec<Node>) -> Node {
    n(
        NodeKind::SourceUnit(SourceUnit { id, absolute_path: s(path) }),
        hidden(),
        children,
    )
}

fn contract(name: &str, kind: ContractKind, src: Src, children: Vec<Node>) -> Node {
    n(
        NodeKind::ContractDefinition(ContractDefinition { name: s(name), kind }),
        src,
        children,
    )
}

fn function_with_modifiers(
    name: &str,
    modifiers: Vec<&str>,
    implemented: bool,
    src: Src,
    children: Vec<Node>,
) -> Node {
    n(
        NodeKind::FunctionDefinition(FunctionDefinition {
            name: s(name),
            kind: FunctionKind::Function,
            visibility: Visibility::Public,
            implemented,
            modifiers: modifiers
                .into_iter()
                .map(|m| ModifierInvocation {
                    modifier_name: IdentifierOrIdentifierPath::IdentifierPath(s(m)),
                })
                .collect(),
        }),
        src,
        children,
    )
}

fn state_var(name: &str, src: Src) -> Node {
    n(
        NodeKind::VariableDeclaration(VariableDeclaration {
            id: 0,
            name: s(name),
            state_variable: true,
            indexed: false,
            mutability: Mutability::Mutable,
            visibility: Visibility::Internal,
            declared_type: None,
        }),
        src,
        vec![],
    )
}

fn modifier_def(name: &str, src: Src) -> Node {
    n(
        NodeKind::ModifierDefinition(ModifierDefinition { name: s(name) }),
        src,
        vec![n(NodeKind::Block, hidden(), vec![])],
    )
}

fn block(children: Vec<Node>) -> Node {
    n(NodeKind::Block, hidden(), children)
}

fn run(source: &str, tree: Node, rules: Vec<Rule>) -> AllFindings {
    let path = "/project/src/Contract.sol";
    let unit = CompiledUnit {
        identifier: s("src/Contract.sol:Contract"),
        source_path: s(path),
        version: Version::new(0, 8, 0),
        ast: Some(tree),
    };
    let sm = vec![SourceMapEntry { path: s(path), content: source.as_bytes().to_vec() }];
    let mut w = Walker::new(vec![unit], sm, rules);
    w.traverse().expect("analysis run failed")
}

const INITIALIZE_SRC: &str = "pragma solidity 0.8.0;

contract Initialize {
    bool initialized;

    modifier initializer() {
        require(!initialized);
        initialized = true;
        _;
    }

    function initialize() public initializer {
        // Initialize some proxy
    }
}";

fn initialize_tree(source: &str) -> Node {
    su_root(
        "/project/src/Initialize.sol",
        1,
        vec![contract(
            "Initialize",
            ContractKind::Contract,
            at(source, "contract Initialize", 0),
            vec![
                state_var("initialized", at(source, "bool initialized", 0)),
                modifier_def("initializer", at(source, "modifier initializer", 0)),
                function_with_modifiers(
                    "initialize",
                    vec!["initializer"],
                    true,
                    at(source, "function initialize", 0),
                    vec![block(vec![])],
                ),
            ],
        )],
    )
}

const MISSING_INITIALIZE_SRC: &str = "pragma solidity 0.8.0;

contract MissingInitialize {
    function initialize() public {
        // Initialize some proxy
    }
}";

fn missing_initialize_tree(source: &str) -> Node {
    su_root(
        "/project/src/MissingInitialize.sol",
        1,
        vec![contract(
            "MissingInitialize",
            ContractKind::Contract,
            at(source, "contract MissingInitialize", 0),
            vec![function_with_modifiers(
                "initialize",
                vec![],
                true,
                at(source, "function initialize", 0),
                vec![block(vec![])],
            )],
        )],
    )
}

#[test]
fn initialize_function() {
    let source = INITIALIZE_SRC;
    let findings = run(source, initialize_tree(source), vec![Rule::Proxy]);

    assert_eq!(findings.lines_for_findings_with_code("proxy", 0), vec![12]);
    assert!(findings.has_with_code("proxy", 2));
}

#[test]
fn missing_initializer() {
    let source = MISSING_INITIALIZE_SRC;
    let findings = run(source, missing_initialize_tree(source), vec![Rule::Proxy]);

    assert_eq!(findings.lines_for_findings_with_code("proxy", 1), vec![4]);
    assert!(!findings.has_with_code("proxy", 2));
}

#[test]
fn not_interfaces() {
    let source = "pragma solidity 0.8.0;

interface MissingInitialize {
    function initialize() external;
}";
    let tree = su_root(
        "/project/src/MissingInitialize.sol",
        1,
        vec![contract(
            "MissingInitialize",
            ContractKind::Interface,
            at(source, "interface MissingInitialize", 0),
            vec![function_with_modifiers(
                "initialize",
                vec![],
                false,
                at(source, "function initialize", 0),
                vec![],
            )],
        )],
    );
    let findings = run(source, tree, vec![Rule::Proxy]);

    assert!(!findings.has_with_code("proxy", 1));
    assert!(!findings.has_with_code("proxy", 2));
}

#[test]
fn no_missing_gap() {
    let source = "pragma solidity 0.8.0;

contract Initializer {
    modifier initializer() {
        _;
    }
}

contract MissingInitialize is Initializer {
    uint256[50] __gap;

    function initialize() external initializer {}
}";
    let tree = su_root(
        "/project/src/MissingInitialize.sol",
        1,
        vec![
            contract(
                "Initializer",
                ContractKind::Contract,
                at(source, "contract Initializer", 0),
                vec![modifier_def("initializer", at(source, "modifier initializer", 0))],
            ),
            contract(
                "MissingInitialize",
                ContractKind::Contract,
                at(source, "contract MissingInitialize", 0),
                vec![
                    state_var("__gap", at(source, "uint256[50] __gap", 0)),
                    function_with_modifiers(
                        "initialize",
                        vec!["initializer"],
                        true,
                        at(source, "function initialize", 0),
                        vec![block(vec![])],
                    ),
                ],
            ),
        ],
    );
    let findings = run(source, tree, vec![Rule::Proxy]);

    assert!(!findings.has_with_code("proxy", 2));
}

#[test]
fn proxy_initialize_function() {
    let source = INITIALIZE_SRC;
    let findings = run(source, initialize_tree(source), vec![Rule::Proxy]);

    assert_eq!(findings.lines_for_findings_with_code("proxy", 0), vec![12]);
}

#[test]
fn proxy_missing_initializer() {
    let source = MISSING_INITIALIZE_SRC;
    let findings = run(source, missing_initialize_tree(source), vec![Rule::Proxy]);

    assert_eq!(findings.lines_for_findings_with_code("proxy", 1), vec![4]);
}
