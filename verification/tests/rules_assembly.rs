#![allow(dead_code)]

use solhunt::ast::{
    ContractDefinition, ContractKind, FunctionDefinition, FunctionKind, Node, NodeKind,
    SourceUnit, Src, TypeDescriptions, VariableDeclaration, Visibility, YulIdentifier,
    Mutability,
};
use solhunt::findings::AllFindings;
use solhunt::rules::Rule;
use solhunt::version::Version;
use solhunt::walker::{CompiledUnit, SourceMapEntry, Walker};

fn n(kind: NodeKind, src: Src, children: Vec<Node>) -> Node {
    Node { kind, src, children }
}

fn hidden() -> Src {
    Src { start: None, length: None, index: None }
}

fn at(text: &str, pat: &str, occ: usize) -> Src {
    let mut from = 0;
    let mut left = occ;
    loop {
        let p = from + text[from..].find(pat).expect("pattern not in source");
        if left == 0 {
            return Src { start: Some(p), length: Some(pat.len()), index: Some(0) };
        }
        left -= 1;
        from = p + 1;
    }
}

fn s(x: &str) -> String {
    x.to_string()
}

fn su_root(path: &str, id: u64, children: Vec<Node>) -> Node {
    n(
        NodeKind::SourceUnit(SourceUnit { id, absolute_path: s(path) }),
        hidden(),
        children,
    )
}

fn contract(name: &str, kind: ContractKind, src: Src, children: Vec<Node>) -> Node {
    n(
        NodeKind::ContractDefinition(ContractDefinition { name: s(name), kind }),
        src,
        children,
    )
}

fn function(name: &str, src: Src, children: Vec<Node>) -> Node {
    n(
        NodeKind::FunctionDefinition(FunctionDefinition {
            name: s(name),
            kind: FunctionKind::Function,
            visibility: Visibility::Public,
            implemented: true,
            modifiers: Vec::new(),
        }),
        src,
        children,
    )
}

fn param(name: &str, src: Src) -> Node {
    n(
        NodeKind::VariableDeclaration(VariableDeclaration {
            id: 0,
            name: s(name),
            state_variable: false,
            indexed: false,
            mutability: Mutability::Mutable,
            visibility: Visibility::Internal,
            declared_type: None,
        }),
        src,
        vec![],
    )
}

fn block(children: Vec<Node>) -> Node {
    n(NodeKind::Block, hidden(), children)
}

fn yul_id(name: &str, src: Src) -> Node {
    n(NodeKind::YulIdentifier(YulIdentifier { name: s(name) }), src, vec![])
}

fn yul_call(fn_name: &str, fn_src: Src, args: Vec<Node>) -> Node {
    let mut children = vec![yul_id(fn_name, fn_src)];
    children.extend(args);
    n(NodeKind::YulFunctionCall, hidden(), children)
}

fn yul_assign(target: Node, value: Node, src: Src) -> Node {
    n(NodeKind::YulAssignment, src, vec![target, value])
}

fn yul_var_decl(value: Node, src: Src) -> Node {
    n(NodeKind::YulVariableDeclaration, src, vec![value])
}

fn yul_block(children: Vec<Node>) -> Node {
    n(NodeKind::YulBlock, hidden(), children)
}

fn var_decl_stmt(children: Vec<Node>, src: Src) -> Node {
    n(NodeKind::VariableDeclarationStatement, src, children)
}

fn run(source: &str, tree: Node, rules: Vec<Rule>) -> AllFindings {
    let path = "/project/src/Contract.sol";
    let unit = CompiledUnit {
        identifier: s("src/Contract.sol:Contract"),
        source_path: s(path),
        version: Version::new(0, 8, 0),
        ast: Some(tree),
    };
    let sm = vec![SourceMapEntry { path: s(path), content: source.as_bytes().to_vec() }];
    let mut w = Walker::new(vec![unit], sm, rules);
    w.traverse().expect("analysis run failed")
}

const EXTCODESIZE_SRC: &str = "pragma solidity ^0.8.0;

contract Foo {
    function make(address to) public {
        uint256 size;

        assembly {
            size := extcodesize(to)
        }
    }
}";

fn extcodesize_tree(source: &str, contract_name: &str) -> Node {
    su_root(
        "/project/src/ExtCodeSize.sol",
        1,
        vec![
            contract(
                contract_name,
                ContractKind::Contract,
                at(source, "contract ", 0),
                vec![
                    function(
                        "make",
                        at(source, "function make", 0),
                        vec![
                            param("to", at(source, "address to", 0)),
                            block(vec![
                                var_decl_stmt(
                                    vec![param("size", at(source, "uint256 size", 0))],
                                    at(source, "uint256 size", 0),
                                ),
                                n(
                                    NodeKind::InlineAssembly,
                                    at(source, "assembly", 0),
                                    vec![
                                        yul_assign(
                                            yul_id("size", at(source, "size :=", 0)),
                                            yul_call(
                                                "extcodesize",
                                                at(source, "extcodesize", 0),
                                                vec![yul_id("to", at(source, "extcodesize(to", 0))],
                                            ),
                                            at(source, "size :=", 0),
                                        ),
                                    ],
                                ),
                            ]),
                        ],
                    ),
                ],
            ),
        ],
    )
}

#[test]
fn with_extcodesize() {
    let source = EXTCODESIZE_SRC;
    let findings = run(source, extcodesize_tree(source, "Foo"), vec![Rule::AssemblyUsage]);

    assert_eq!(
        findings.lines_for_findings_with_code("assembly", 0), // usage of assembly
        vec![7]
    );

    assert_eq!(
        findings.lines_for_findings_with_code("assembly", 1), // extcodesize
        vec![8]
    );
}

const NESTED_SRC: &str = "pragma solidity ^0.8.0;

contract Foo {
    function make(address to) public {
        uint256 size;

        assembly {
            for { let i:= 0 } lt(i, 10) { i := add(i, 1) } {
                size := extcodesize(to)
            }
        }
    }
}";

fn nested_tree(source: &str, contract_name: &str) -> Node {
    let init = yul_block(vec![yul_var_decl(
        n(NodeKind::YulLiteral, at(source, "0 }", 0), vec![]),
        at(source, "let i:= 0", 0),
    )]);
    let cond = yul_call(
        "lt",
        at(source, "lt(i, 10)", 0),
        vec![yul_id("i", at(source, "lt(i", 0)), n(NodeKind::YulLiteral, at(source, "10", 0), vec![])],
    );
    let post = yul_block(vec![yul_assign(
        yul_id("i", at(source, "i := add", 0)),
        yul_call(
            "add",
            at(source, "add(i, 1)", 0),
            vec![yul_id("i", at(source, "add(i", 0)), n(NodeKind::YulLiteral, at(source, "1)", 0), vec![])],
        ),
        at(source, "i := add", 0),
    )]);
    let body = yul_block(vec![yul_assign(
        yul_id("size", at(source, "size := extcodesize", 0)),
        yul_call(
            "extcodesize",
            at(source, "extcodesize", 0),
            vec![yul_id("to", at(source, "extcodesize(to", 0))],
        ),
        at(source, "size := extcodesize", 0),
    )]);
    su_root(
        "/project/src/NestedExtCodeSize.sol",
        1,
        vec![
            contract(
                contract_name,
                ContractKind::Contract,
                at(source, "contract ", 0),
                vec![
                    function(
                        "make",
                        at(source, "function make", 0),
                        vec![
                            param("to", at(source, "address to", 0)),
                            block(vec![
                                var_decl_stmt(
                                    vec![param("size", at(source, "uint256 size", 0))],
                                    at(source, "uint256 size", 0),
                                ),
                                n(
                                    NodeKind::InlineAssembly,
                                    at(source, "assembly", 0),
                                    vec![n(
                                        NodeKind::YulForLoop,
                                        at(source, "for {", 0),
                                        vec![init, cond, post, body],
                                    )],
                                ),
                            ]),
                        ],
                    ),
                ],
            ),
        ],
    )
}

#[test]
fn nested_extcodesize() {
    let source = NESTED_SRC;
    let findings = run(source, nested_tree(source, "Foo"), vec![Rule::AssemblyUsage]);

    assert_eq!(
        findings.lines_for_findings_with_code("assembly", 0), // usage of assembly
        vec![7]
    );

    assert_eq!(
        findings.lines_for_findings_with_code("assembly", 1), // extcodesize
        vec![9]
    );
}

const MEDIUM_EXTCODESIZE_SRC: &str = "pragma solidity ^0.8.0;

contract ExtCodeSize {
    function make(address to) public {
        uint256 size;

        assembly {
            size := extcodesize(to)
        }
    }
}";

#[test]
fn assembly_with_extcodesize() {
    let source = MEDIUM_EXTCODESIZE_SRC;
    let findings = run(source, extcodesize_tree(source, "ExtCodeSize"), vec![Rule::Assembly]);

    assert_eq!(
        findings.lines_for_findings_with_code("assembly", 0), // extcodesize
        vec![8]
    );
}

const WITHOUT_EXTCODESIZE_SRC: &str = "pragma solidity ^0.8.0;

contract WithoutExtCodeSize {
    function make(address to) public {
        uint256 bal;

        assembly {
            bal := balance(to)
        }
    }
}";

#[test]
fn without_extcodesize() {
    let source = WITHOUT_EXTCODESIZE_SRC;
    let tree = su_root(
        "/project/src/WithoutExtCodeSize.sol",
        1,
        vec![
            contract(
                "WithoutExtCodeSize",
                ContractKind::Contract,
                at(source, "contract WithoutExtCodeSize", 0),
                vec![
                    function(
                        "make",
                        at(source, "function make", 0),
                        vec![
                            param("to", at(source, "address to", 0)),
                            block(vec![n(
                                NodeKind::InlineAssembly,
                                at(source, "assembly", 0),
                                vec![yul_assign(
                                    yul_id("bal", at(source, "bal :=", 0)),
                                    yul_call(
                                        "balance",
                                        at(source, "balance", 0),
                                        vec![yul_id("to", at(source, "balance(to", 0))],
                                    ),
                                    at(source, "bal :=", 0),
                                )],
                            )]),
                        ],
                    ),
                ],
            ),
        ],
    );
    let findings = run(source, tree, vec![Rule::Assembly]);

    assert!(!findings.has_with_code("assembly", 0)); // extcodesize
}

#[test]
fn assembly_nested_extcodesize() {
    let source = "pragma solidity ^0.8.0;

contract NestedExtCodeSize {
    function make(address to) public {
        uint256 size;

        assembly {
            for { let i:= 0 } lt(i, 10) { i := add(i, 1) } {
                size := extcodesize(to)
            }
        }
    }
}";
    let findings = run(source, nested_tree(source, "NestedExtCodeSize"), vec![Rule::Assembly]);

    assert_eq!(
        findings.lines_for_findings_with_code("assembly", 0), // extcodesize
        vec![9]
    );
}

#[test]
fn assembly_meth() {
    let source = "pragma solidity ^0.8.0;

contract Assembly {
    function make(address to) public {
        assembly {
            let id := chainid()
            let cds := calldatasize()
            // let h := keccak256()
            let g := gas()
            let addr := address()
            let size := extcodesize(addr)
            let hash := extcodehash(addr)
            let bal := selfbalance()
        }
    }
}";
    let tree = su_root(
        "/project/src/Assembly.sol",
        1,
        vec![
            contract(
                "Assembly",
                ContractKind::Contract,
                at(source, "contract Assembly", 0),
                vec![
                    function(
                        "make",
                        at(source, "function make", 0),
                        vec![
                            param("to", at(source, "address to", 0)),
                            block(vec![n(
                                NodeKind::InlineAssembly,
                                at(source, "assembly", 0),
                                vec![
                                    yul_var_decl(
                                        yul_call("chainid", at(source, "chainid", 0), vec![]),
                                        at(source, "let id", 0),
                                    ),
                                    yul_var_decl(
                                        yul_call(
                                            "calldatasize",
                                            at(source, "calldatasize", 0),
                                            vec![],
                                        ),
                                        at(source, "let cds", 0),
                                    ),
                                    yul_var_decl(
                                        yul_call("gas", at(source, "gas()", 0), vec![]),
                                        at(source, "let g ", 0),
                                    ),
                                    yul_var_decl(
                                        yul_call("address", at(source, "address()", 0), vec![]),
                                        at(source, "let addr", 0),
                                    ),
                                    yul_var_decl(
                                        yul_call(
                                            "extcodesize",
                                            at(source, "extcodesize", 0),
                                            vec![yul_id("addr", at(source, "extcodesize(addr", 0))],
                                        ),
                                        at(source, "let size", 0),
                                    ),
                                    yul_var_decl(
                                        yul_call(
                                            "extcodehash",
                                            at(source, "extcodehash", 0),
                                            vec![yul_id("addr", at(source, "extcodehash(addr", 0))],
                                        ),
                                        at(source, "let hash", 0),
                                    ),
                                    yul_var_decl(
                                        yul_call(
                                            "selfbalance",
                                            at(source, "selfbalance", 0),
                                            vec![],
                                        ),
                                        at(source, "let bal", 0),
                                    ),
                                ],
                            )]),
                        ],
                    ),
                ],
            ),
        ],
    );
    let findings = run(source, tree, vec![Rule::Assembly]);

    assert_eq!(
        findings.lines_for_findings_with_code("assembly", 1),
        vec![6, 7, 9, 10, 11, 12, 13]
    );
}
