#![allow(dead_code)]

use solhunt::ast::{
    ContractDefinition, ContractKind, ElementaryTypeName, ErrorDefinition, EventDefinition,
    FunctionCall, FunctionCallKind, FunctionDefinition, FunctionKind, Identifier, Literal,
    MemberAccess, Mutability, Node, NodeKind, SourceUnit, Src, TypeDescriptions,
    VariableDeclaration, Visibility,
};
use solhunt::findings::AllFindings;
use solhunt::rules::Rule;
use solhunt::version::Version;
use solhunt::walker::{CompiledUnit, SourceMapEntry, Walker};

fn n(kind: NodeKind, src: Src, children: Vec<Node>) -> Node {
    Node { kind, src, children }
}

fn hidden() -> Src {
    Src { start: None, length: None, index: None }
}

fn at(text: &str, pat: &str, occ: usize) -> Src {
    let mut from = 0;
    let mut left = occ;
    loop {
        let p = from + text[from..].find(pat).expect("pattern not in source");
        if left == 0 {
            return Src { start: Some(p), length: Some(pat.len()), index: Some(0) };
        }
        left -= 1;
        from = p + 1;
    }
}

fn s(x: &str) -> String {
    x.to_string()
}

fn su_root(path: &str, id: u64, children: Vec<Node>) -> Node {
    n(
        NodeKind::SourceUnit(SourceUnit { id, absolute_path: s(path) }),
        hidden(),
        children,
    )
}

fn contract(name: &str, src: Src, children: Vec<Node>) -> Node {
    n(
        NodeKind::ContractDefinition(ContractDefinition {
            name: s(name),
            kind: ContractKind::Contract,
        }),
        src,
        children,
    )
}

fn function(name: &str, src: Src, children: Vec<Node>) -> Node {
    n(
        NodeKind::FunctionDefinition(FunctionDefinition {
            name: s(name),
            kind: FunctionKind::Function,
            visibility: Visibility::Public,
            implemented: true,
            modifiers: Vec::new(),
        }),
        src,
        children,
    )
}

fn state_var(name: &str, ty: &str, src: Src) -> Node {
    n(
        NodeKind::VariableDeclaration(VariableDeclaration {
            id: 0,
            name: s(name),
            state_variable: true,
            indexed: false,
            mutability: Mutability::Mutable,
            visibility: Visibility::Internal,
            declared_type: Some(ElementaryTypeName { name: s(ty) }),
        }),
        src,
        vec![],
    )
}

fn event_param(indexed: bool, src: Src) -> Node {
    n(
        NodeKind::VariableDeclaration(VariableDeclaration {
            id: 0,
            name: s(""),
            state_variable: false,
            indexed,
            mutability: Mutability::Mutable,
            visibility: Visibility::Internal,
            declared_type: None,
        }),
        src,
        vec![],
    )
}

fn block(children: Vec<Node>) -> Node {
    n(NodeKind::Block, hidden(), children)
}

fn run(source: &str, tree: Node, rules: Vec<Rule>) -> AllFindings {
    let path = "/project/src/Contract.sol";
    let unit = CompiledUnit {
        identifier: s("src/Contract.sol:Contract"),
        source_path: s(path),
        version: Version::new(0, 8, 0),
        ast: Some(tree),
    };
    let sm = vec![SourceMapEntry { path: s(path), content: source.as_bytes().to_vec() }];
    let mut w = Walker::new(vec![unit], sm, rules);
    w.traverse().expect("analysis run failed")
}

#[test]
fn event_no_sender() {
    let source = "pragma solidity 0.8.0;

contract Event {
    event SomeThing(uint256);
    event Other(address);
    event Other_Ind(address indexed);

    function emit_things() public {
        emit SomeThing(0);
        emit Other(msg.sender);
    }
}
";
    let plain_emit = n(
        NodeKind::EmitStatement,
        at(source, "emit SomeThing", 0),
        vec![n(
            NodeKind::FunctionCall(FunctionCall {
                kind: FunctionCallKind::FunctionCall,
                type_descriptions: TypeDescriptions {
                    type_string: None,
                    type_identifier: None,
                },
            }),
            at(source, "SomeThing(0)", 0),
            vec![
                n(
                    NodeKind::Identifier(Identifier {
                        name: s("SomeThing"),
                        referenced_declaration: None,
                        type_descriptions: TypeDescriptions {
                            type_string: None,
                            type_identifier: None,
                        },
                    }),
                    at(source, "SomeThing(0)", 0),
                    vec![],
                ),
                n(
                    NodeKind::Literal(Literal {
                        type_descriptions: TypeDescriptions {
                            type_string: Some(s("int_const 0")),
                            type_identifier: None,
                        },
                    }),
                    at(source, "0)", 0),
                    vec![],
                ),
            ],
        )],
    );
    let sender_emit = n(
        NodeKind::EmitStatement,
        at(source, "emit Other(msg.sender)", 0),
        vec![n(
            NodeKind::FunctionCall(FunctionCall {
                kind: FunctionCallKind::FunctionCall,
                type_descriptions: TypeDescriptions {
                    type_string: None,
                    type_identifier: None,
                },
            }),
            at(source, "Other(msg.sender)", 0),
            vec![
                n(
                    NodeKind::Identifier(Identifier {
                        name: s("Other"),
                        referenced_declaration: None,
                        type_descriptions: TypeDescriptions {
                            type_string: None,
                            type_identifier: None,
                        },
                    }),
                    at(source, "Other(msg.sender)", 0),
                    vec![],
                ),
                n(
                    NodeKind::MemberAccess(MemberAccess {
                        member_name: s("sender"),
                        type_descriptions: TypeDescriptions {
                            type_string: Some(s("address")),
                            type_identifier: None,
                        },
                    }),
                    at(source, "msg.sender", 0),
                    vec![n(
                        NodeKind::Identifier(Identifier {
                            name: s("msg"),
                            referenced_declaration: None,
                            type_descriptions: TypeDescriptions {
                                type_string: Some(s("msg")),
                                type_identifier: None,
                            },
                        }),
                        at(source, "msg.sender", 0),
                        vec![],
                    )],
                ),
            ],
        )],
    );
    let tree = su_root(
        "/project/src/Event.sol",
        1,
        vec![contract(
            "Event",
            at(source, "contract Event", 0),
            vec![
                n(
                    NodeKind::EventDefinition(EventDefinition { name: s("SomeThing") }),
                    at(source, "event SomeThing", 0),
                    vec![event_param(false, at(source, "uint256", 0))],
                ),
                n(
                    NodeKind::EventDefinition(EventDefinition { name: s("Other") }),
                    at(source, "event Other(", 0),
                    vec![event_param(false, at(source, "address)", 0))],
                ),
                n(
                    NodeKind::EventDefinition(EventDefinition { name: s("Other_Ind") }),
                    at(source, "event Other_Ind", 0),
                    vec![event_param(true, at(source, "address indexed", 0))],
                ),
                function(
                    "emit_things",
                    at(source, "function emit_things", 0),
                    vec![block(vec![plain_emit, sender_emit])],
                ),
            ],
        )],
    );
    let findings = run(source, tree, vec![Rule::Events]);

    assert_eq!(findings.lines_for_findings_with_code("events", 0), [9]);
    assert_eq!(findings.lines_for_findings_with_code("events", 1), [4, 5]);
}

#[test]
fn storage_var() {
    let source = "pragma solidity 0.8.0;

contract SStorage {
    uint256 some_storage;
    uint256 s_some_storage;
    address hello;
    uint256 s_amba;
}";
    let tree = su_root(
        "/project/src/SStorage.sol",
        1,
        vec![contract(
            "SStorage",
            at(source, "contract SStorage", 0),
            vec![
                state_var("some_storage", "uint256", at(source, "uint256 some_storage", 0)),
                state_var("s_some_storage", "uint256", at(source, "uint256 s_some_storage", 0)),
                state_var("hello", "address", at(source, "address hello", 0)),
                state_var("s_amba", "uint256", at(source, "uint256 s_amba", 0)),
            ],
        )],
    );
    let findings = run(source, tree, vec![Rule::Style]);

    assert_eq!(findings.lines_for_findings_with_code("style", 1), [4, 6]);
}

#[test]
fn empty_error() {
    let source = "pragma solidity 0.8.4;

contract Hey{
    error Problem();
    error Good(address);
}";
    let tree = su_root(
        "/project/src/Hey.sol",
        1,
        vec![contract(
            "Hey",
            at(source, "contract Hey", 0),
            vec![
                n(
                    NodeKind::ErrorDefinition(ErrorDefinition { name: s("Problem") }),
                    at(source, "error Problem", 0),
                    vec![],
                ),
                n(
                    NodeKind::ErrorDefinition(ErrorDefinition { name: s("Good") }),
                    at(source, "error Good", 0),
                    vec![event_param(false, at(source, "address)", 0))],
                ),
            ],
        )],
    );
    let findings = run(source, tree, vec![Rule::Style]);

    assert_eq!(findings.lines_for_findings_with_code("style", 5), [4]);
}

#[test]
fn unclear_type() {
    let source = "pragma solidity 0.8.0;

contract Yo {
    uint256 val;
    uint hi;
    uint8 nope;
    int a;
}";
    let tree = su_root(
        "/project/src/Yo.sol",
        1,
        vec![contract(
            "Yo",
            at(source, "contract Yo", 0),
            vec![
                state_var("val", "uint256", at(source, "uint256 val", 0)),
                state_var("hi", "uint", at(source, "uint hi", 0)),
                state_var("nope", "uint8", at(source, "uint8 nope", 0)),
                state_var("a", "int", at(source, "int a", 0)),
            ],
        )],
    );
    let findings = run(source, tree, vec![Rule::Style]);

    assert_eq!(findings.lines_for_findings_with_code("style", 6), [5, 7]);
    assert!(!findings.has_with_code("style", 8));
}

#[test]
fn tab_size() {
    let source = "pragma solidity 0.8.0;

contract Tabs {
        function long_tabs() public {
                // Something went wrong!
        }
}";
    let tree = su_root(
        "/project/src/Tabs.sol",
        1,
        vec![contract(
            "Tabs",
            at(source, "contract Tabs", 0),
            vec![function(
                "long_tabs",
                at(source, "function long_tabs", 0),
                vec![block(vec![])],
            )],
        )],
    );
    let findings = run(source, tree, vec![Rule::Style]);

    assert!(findings.has_with_code("style", 8));
}
