#![allow(dead_code)]

use solhunt::ast::{
    BinaryOperation, BinaryOperator, ContractDefinition, ContractKind, FunctionDefinition,
    FunctionKind, Identifier, Literal, Mutability, Node, NodeKind, SourceUnit, Src,
    TypeDescriptions, VariableDeclaration, Visibility,
};
use solhunt::findings::AllFindings;
use solhunt::rules::Rule;
use solhunt::version::Version;
use solhunt::walker::{CompiledUnit, SourceMapEntry, Walker};

fn n(kind: NodeKind, src: Src, children: Vec<Node>) -> Node {
    Node { kind, src, children }
}

fn hidden() -> Src {
    Src { start: None, length: None, index: None }
}

fn at(text: &str, pat: &str, occ: usize) -> Src {
    let mut from = 0;
    let mut left = occ;
    loop {
        let p = from + text[from..].find(pat).expect("pattern not in source");
        if left == 0 {
            return Src { start: Some(p), length: Some(pat.len()), index: Some(0) };
        }
        left -= 1;
        from = p + 1;
    }
}

fn s(x: &str) -> String {
    x.to_string()
}

fn su_root(path: &str, id: u64, children: Vec<Node>) -> Node {
    n(
        NodeKind::SourceUnit(SourceUnit { id, absolute_path: s(path) }),
        hidden(),
        children,
    )
}

fn contract(name: &str, src: Src, children: Vec<Node>) -> Node {
    n(
        NodeKind::ContractDefinition(ContractDefinition {
            name: s(name),
            kind: ContractKind::Contract,
        }),
        src,
        children,
    )
}

fn function(name: &str, kind: FunctionKind, src: Src, children: Vec<Node>) -> Node {
    n(
        NodeKind::FunctionDefinition(FunctionDefinition {
            name: s(name),
            kind,
            visibility: Visibility::Public,
            implemented: true,
            modifiers: Vec::new(),
        }),
        src,
        children,
    )
}

fn var(id: u64, name: &str, state: bool, src: Src) -> Node {
    n(
        NodeKind::VariableDeclaration(VariableDeclaration {
            id,
            name: s(name),
            state_variable: state,
            indexed: false,
            mutability: Mutability::Mutable,
            visibility: Visibility::Internal,
            declared_type: None,
        }),
        src,
        vec![],
    )
}

fn ident(name: &str, refdecl: Option<u64>, ts: Option<&str>, src: Src) -> Node {
    n(
        NodeKind::Identifier(Identifier {
            name: s(name),
            referenced_declaration: refdecl,
            type_descriptions: TypeDescriptions {
                type_string: ts.map(s),
                type_identifier: None,
            },
        }),
        src,
        vec![],
    )
}

fn literal(ts: &str, src: Src) -> Node {
    n(
        NodeKind::Literal(Literal {
            type_descriptions: TypeDescriptions { type_string: Some(s(ts)), type_identifier: None },
        }),
        src,
        vec![],
    )
}

fn binop(op: BinaryOperator, lhs: Node, rhs: Node, src: Src) -> Node {
    n(NodeKind::BinaryOperation(BinaryOperation { operator: op }), src, vec![lhs, rhs])
}

fn assignment(lhs: Node, rhs: Node, src: Src) -> Node {
    n(NodeKind::Assignment, src, vec![lhs, rhs])
}

fn expr_stmt(e: Node, src: Src) -> Node {
    n(NodeKind::ExpressionStatement, src, vec![e])
}

fn block(children: Vec<Node>) -> Node {
    n(NodeKind::Block, hidden(), children)
}

fn var_decl_stmt(children: Vec<Node>, src: Src) -> Node {
    n(NodeKind::VariableDeclarationStatement, src, children)
}

fn run(source: &str, tree: Node, rules: Vec<Rule>) -> AllFindings {
    let path = "/project/src/Contract.sol";
    let unit = CompiledUnit {
        identifier: s("src/Contract.sol:Contract"),
        source_path: s(path),
        version: Version::new(0, 8, 0),
        ast: Some(tree),
    };
    let sm = vec![SourceMapEntry { path: s(path), content: source.as_bytes().to_vec() }];
    let mut w = Walker::new(vec![unit], sm, rules);
    w.traverse().expect("analysis run failed")
}

#[test]
fn not_changing() {
    let source = "pragma solidity 0.8.0;

contract NotChange {
    string public baseURI;

    constructor(string memory _baseURI) {
        baseURI = _baseURI;
    }
}";
    let tree = su_root(
        "/project/src/NotChange.sol",
        1,
        vec![contract(
            "NotChange",
            at(source, "contract NotChange", 0),
            vec![
                var(3, "baseURI", true, at(source, "string public baseURI", 0)),
                function(
                    "",
                    FunctionKind::Constructor,
                    at(source, "constructor", 0),
                    vec![
                        var(4, "_baseURI", false, at(source, "string memory _baseURI", 0)),
                        block(vec![expr_stmt(
                            assignment(
                                ident("baseURI", Some(3), None, at(source, "baseURI = ", 0)),
                                ident("_baseURI", Some(4), None, at(source, "_baseURI;", 0)),
                                at(source, "baseURI = _baseURI", 0),
                            ),
                            at(source, "baseURI = _baseURI", 0),
                        )]),
                    ],
                ),
            ],
        )],
    );
    let findings = run(source, tree, vec![Rule::Immutable]);

    assert_eq!(findings.lines_for_findings_with_code("immutable", 0), vec![4]);
}

#[test]
fn changing() {
    let source = "pragma solidity 0.8.0;

contract Changes {
    string public baseURI;

    constructor(string memory _baseURI) {
        baseURI = _baseURI;
    }

    function setURI(string memory _baseURI) public {
        baseURI = _baseURI;
    }
}";
    let tree = su_root(
        "/project/src/Changes.sol",
        1,
        vec![contract(
            "Changes",
            at(source, "contract Changes", 0),
            vec![
                var(3, "baseURI", true, at(source, "string public baseURI", 0)),
                function(
                    "",
                    FunctionKind::Constructor,
                    at(source, "constructor", 0),
                    vec![
                        var(4, "_baseURI", false, at(source, "string memory _baseURI", 0)),
                        block(vec![expr_stmt(
                            assignment(
                                ident("baseURI", Some(3), None, at(source, "baseURI = ", 0)),
                                ident("_baseURI", Some(4), None, at(source, "_baseURI;", 0)),
                                at(source, "baseURI = _baseURI", 0),
                            ),
                            at(source, "baseURI = _baseURI", 0),
                        )]),
                    ],
                ),
                function(
                    "setURI",
                    FunctionKind::Function,
                    at(source, "function setURI", 0),
                    vec![
                        var(5, "_baseURI", false, at(source, "string memory _baseURI", 1)),
                        block(vec![expr_stmt(
                            assignment(
                                ident("baseURI", Some(3), None, at(source, "baseURI = ", 1)),
                                ident("_baseURI", Some(5), None, at(source, "_baseURI;", 1)),
                                at(source, "baseURI = _baseURI", 1),
                            ),
                            at(source, "baseURI = _baseURI", 1),
                        )]),
                    ],
                ),
            ],
        )],
    );
    let findings = run(source, tree, vec![Rule::Immutable]);

    assert!(!findings.has_with_code("immutable", 0));
}

#[test]
fn storage_len_loop() {
    let source = "pragma solidity ^0.8.0;

contract StorLoop {
    uint256 length = 10;

    function loop() public {
        for (uint256 i = 0; i < length; i++) {
            // do something here
        }
    }
}";
    let tree = su_root(
        "/project/src/StorLoop.sol",
        1,
        vec![contract(
            "StorLoop",
            at(source, "contract StorLoop", 0),
            vec![
                var(7, "length", true, at(source, "uint256 length", 0)),
                function(
                    "loop",
                    FunctionKind::Function,
                    at(source, "function loop", 0),
                    vec![block(vec![n(
                        NodeKind::ForStatement,
                        at(source, "for (", 0),
                        vec![
                            var_decl_stmt(
                                vec![var(8, "i", false, at(source, "uint256 i", 0))],
                                at(source, "uint256 i = 0", 0),
                            ),
                            binop(
                                BinaryOperator::Other,
                                ident("i", Some(8), None, at(source, "i < length", 0)),
                                ident("length", Some(7), None, at(source, "length;", 0)),
                                at(source, "i < length", 0),
                            ),
                            expr_stmt(
                                ident("i", Some(8), None, at(source, "i++", 0)),
                                at(source, "i++", 0),
                            ),
                            block(vec![]),
                        ],
                    )])],
                ),
            ],
        )],
    );
    let findings = run(source, tree, vec![Rule::Loops]);

    assert_eq!(findings.lines_for_findings_with_code("loops", 0), vec![7]);
}

#[test]
fn stack_len_loop() {
    let source = "pragma solidity ^0.8.0;

contract StorLoop {
    uint256 length = 10;

    function loop() public {
        uint256 l = length;

        for (uint256 i = 0; i < l; i++) {
            // do something here
        }
    }
}";
    let tree = su_root(
        "/project/src/StorLoop.sol",
        1,
        vec![contract(
            "StorLoop",
            at(source, "contract StorLoop", 0),
            vec![
                var(7, "length", true, at(source, "uint256 length", 0)),
                function(
                    "loop",
                    FunctionKind::Function,
                    at(source, "function loop", 0),
                    vec![block(vec![
                        var_decl_stmt(
                            vec![
                                var(9, "l", false, at(source, "uint256 l =", 0)),
                                ident("length", Some(7), None, at(source, "length;", 0)),
                            ],
                            at(source, "uint256 l =", 0),
                        ),
                        n(
                            NodeKind::ForStatement,
                            at(source, "for (", 0),
                            vec![
                                var_decl_stmt(
                                    vec![var(8, "i", false, at(source, "uint256 i", 0))],
                                    at(source, "uint256 i = 0", 0),
                                ),
                                binop(
                                    BinaryOperator::Other,
                                    ident("i", Some(8), None, at(source, "i < l", 0)),
                                    ident("l", Some(9), None, at(source, "l;", 0)),
                                    at(source, "i < l", 0),
                                ),
                                expr_stmt(
                                    ident("i", Some(8), None, at(source, "i++", 0)),
                                    at(source, "i++", 0),
                                ),
                                block(vec![]),
                            ],
                        ),
                    ])],
                ),
            ],
        )],
    );
    let findings = run(source, tree, vec![Rule::Loops]);

    assert!(!findings.has_with_code("loops", 0));
}

#[test]
fn bitwise_shifts() {
    let source = "pragma solidity 0.8.0;

contract Mul {
    function calculateStuff(uint256 a) public {
        uint256 val ;
        val = a * 2;
        val = a * 3;
        val = a * 4;
        val = a / 4;
        val = a / 6;
    }
}";
    let stmt = |op: BinaryOperator, pat: &str, lit: &str| -> Node {
        expr_stmt(
            assignment(
                ident("val", None, None, hidden()),
                binop(
                    op,
                    ident("a", None, Some("uint256"), hidden()),
                    literal(lit, hidden()),
                    at(source, pat, 0),
                ),
                at(source, pat, 0),
            ),
            at(source, pat, 0),
        )
    };
    let tree = su_root(
        "/project/src/Mul.sol",
        1,
        vec![contract(
            "Mul",
            at(source, "contract Mul", 0),
            vec![function(
                "calculateStuff",
                FunctionKind::Function,
                at(source, "function calculateStuff", 0),
                vec![
                    var(2, "a", false, at(source, "uint256 a", 0)),
                    block(vec![
                        var_decl_stmt(
                            vec![var(3, "val", false, at(source, "uint256 val", 0))],
                            at(source, "uint256 val", 0),
                        ),
                        stmt(BinaryOperator::Mul, "a * 2", "int_const 2"),
                        stmt(BinaryOperator::Mul, "a * 3", "int_const 3"),
                        stmt(BinaryOperator::Mul, "a * 4", "int_const 4"),
                        stmt(BinaryOperator::Div, "a / 4", "int_const 4"),
                        stmt(BinaryOperator::Div, "a / 6", "int_const 6"),
                    ]),
                ],
            )],
        )],
    );
    let findings = run(source, tree, vec![Rule::Maths]);

    assert_eq!(findings.lines_for_findings_with_code("maths", 0), vec![6, 8, 9]);
}
