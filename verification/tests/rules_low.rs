#![allow(dead_code)]

use solhunt::ast::{
    ContractDefinition, ContractKind, ElementaryTypeNameExpression, FunctionCall,
    FunctionCallKind, FunctionDefinition, FunctionKind, Identifier, MemberAccess, Mutability,
    Node, NodeKind, PragmaDirective, SourceUnit, Src, TypeDescriptions, VariableDeclaration,
    Visibility,
};
use solhunt::findings::AllFindings;
use solhunt::rules::Rule;
use solhunt::version::Version;
use solhunt::walker::{CompiledUnit, SourceMapEntry, Walker};

fn n(kind: NodeKind, src: Src, children: Vec<Node>) -> Node {
    Node { kind, src, children }
}

fn hidden() -> Src {
    Src { start: None, length: None, index: None }
}

fn at(text: &str, pat: &str, occ: usize) -> Src {
    let mut from = 0;
    let mut left = occ;
    loop {
        let p = from + text[from..].find(pat).expect("pattern not in source");
        if left == 0 {
            return Src { start: Some(p), length: Some(pat.len()), index: Some(0) };
        }
        left -= 1;
        from = p + 1;
    }
}

fn s(x: &str) -> String {
    x.to_string()
}

fn td(ts: Option<&str>, ti: Option<&str>) -> TypeDescriptions {
    TypeDescriptions { type_string: ts.map(s), type_identifier: ti.map(s) }
}

fn su_root(path: &str, id: u64, children: Vec<Node>) -> Node {
    n(
        NodeKind::SourceUnit(SourceUnit { id, absolute_path: s(path) }),
        hidden(),
        children,
    )
}

fn contract(name: &str, kind: ContractKind, src: Src, children: Vec<Node>) -> Node {
    n(
        NodeKind::ContractDefinition(ContractDefinition { name: s(name), kind }),
        src,
        children,
    )
}

fn function(name: &str, src: Src, children: Vec<Node>) -> Node {
    n(
        NodeKind::FunctionDefinition(FunctionDefinition {
            name: s(name),
            kind: FunctionKind::Function,
            visibility: Visibility::Public,
            implemented: true,
            modifiers: Vec::new(),
        }),
        src,
        children,
    )
}

fn param(name: &str, src: Src) -> Node {
    n(
        NodeKind::VariableDeclaration(VariableDeclaration {
            id: 0,
            name: s(name),
            state_variable: false,
            indexed: false,
            mutability: Mutability::Mutable,
            visibility: Visibility::Internal,
            declared_type: None,
        }),
        src,
        vec![],
    )
}

fn ident(name: &str, ts: Option<&str>, ti: Option<&str>, src: Src) -> Node {
    n(
        NodeKind::Identifier(Identifier {
            name: s(name),
            referenced_declaration: None,
            type_descriptions: td(ts, ti),
        }),
        src,
        vec![],
    )
}

fn member(name: &str, ts: Option<&str>, ti: Option<&str>, expr: Node, src: Src) -> Node {
    n(
        NodeKind::MemberAccess(MemberAccess { member_name: s(name), type_descriptions: td(ts, ti) }),
        src,
        vec![expr],
    )
}

fn call(kind: FunctionCallKind, ts: Option<&str>, callee: Node, args: Vec<Node>, src: Src) -> Node {
    let mut children = vec![callee];
    children.extend(args);
    n(
        NodeKind::FunctionCall(FunctionCall { kind, type_descriptions: td(ts, None) }),
        src,
        children,
    )
}

fn expr_stmt(e: Node, src: Src) -> Node {
    n(NodeKind::ExpressionStatement, src, vec![e])
}

fn block(children: Vec<Node>) -> Node {
    n(NodeKind::Block, hidden(), children)
}

fn var_decl_stmt(children: Vec<Node>, src: Src) -> Node {
    n(NodeKind::VariableDeclarationStatement, src, children)
}

fn pragma(literals: Vec<&str>, src: Src) -> Node {
    n(
        NodeKind::PragmaDirective(PragmaDirective {
            literals: literals.into_iter().map(s).collect(),
        }),
        src,
        vec![],
    )
}

fn run(source: &str, tree: Node, rules: Vec<Rule>) -> AllFindings {
    let path = "/project/src/Contract.sol";
    let unit = CompiledUnit {
        identifier: s("src/Contract.sol:Contract"),
        source_path: s(path),
        version: Version::new(0, 8, 0),
        ast: Some(tree),
    };
    let sm = vec![SourceMapEntry { path: s(path), content: source.as_bytes().to_vec() }];
    let mut w = Walker::new(vec![unit], sm, rules);
    w.traverse().expect("analysis run failed")
}

#[test]
fn use_encode_call() {
    let source = r#"pragma solidity 0.8.17;

interface IERC20 {
    function transfer(address, uint256) external;
}

contract EncodeCall {
    function doThings(address to, uint256 amount) external {
        bytes memory a = abi.encodeCall(IERC20.transfer, (to, amount));
        bytes memory b = abi.encodeWithSelector(IERC20.transfer.selector, to, amount);
        bytes memory c = abi.encodeWithSignature("transfer(address,uint256)", to, amount);
    }
}"#;
    let encode = |name: &str, pat: &str| -> Node {
        call(
            FunctionCallKind::FunctionCall,
            Some("bytes memory"),
            member(
                name,
                Some("function () pure"),
                None,
                ident("abi", Some("abi"), None, at(source, pat, 0)),
                at(source, pat, 0),
            ),
            vec![],
            at(source, pat, 0),
        )
    };
    let tree = su_root(
        "/project/src/EncodeCall.sol",
        1,
        vec![
            contract(
                "IERC20",
                ContractKind::Interface,
                at(source, "interface IERC20", 0),
                vec![],
            ),
            contract(
                "EncodeCall",
                ContractKind::Contract,
                at(source, "contract EncodeCall", 0),
                vec![function(
                    "doThings",
                    at(source, "function doThings", 0),
                    vec![block(vec![
                        var_decl_stmt(
                            vec![
                                param("a", at(source, "bytes memory a", 0)),
                                encode("encodeCall", "abi.encodeCall"),
                            ],
                            at(source, "bytes memory a", 0),
                        ),
                        var_decl_stmt(
                            vec![
                                param("b", at(source, "bytes memory b", 0)),
                                encode("encodeWithSelector", "abi.encodeWithSelector"),
                            ],
                            at(source, "bytes memory b", 0),
                        ),
                        var_decl_stmt(
                            vec![
                                param("c", at(source, "bytes memory c", 0)),
                                encode("encodeWithSignature", "abi.encodeWithSignature"),
                            ],
                            at(source, "bytes memory c", 0),
                        ),
                    ])],
                )],
            ),
        ],
    );
    let findings = run(source, tree, vec![Rule::Abi]);

    assert_eq!(findings.lines_for_findings_with_code("abi", 0), [10, 11]);
}

#[test]
fn deprecated_send_transfer() {
    let source = "pragma solidity 0.8.0;

contract Depreacted {
    function give() public {
        payable(msg.sender).transfer(1 ether);
        payable(msg.sender).send(1 ether);
    }
}";
    let payable_expr = |occ: usize| -> Node {
        call(
            FunctionCallKind::TypeConversion,
            Some("address payable"),
            ident("payable", None, None, at(source, "payable", occ)),
            vec![member(
                "sender",
                Some("address"),
                None,
                ident("msg", Some("msg"), None, at(source, "msg.sender", occ)),
                at(source, "msg.sender", occ),
            )],
            at(source, "payable(msg.sender)", occ),
        )
    };
    let tree = su_root(
        "/project/src/Depreacted.sol",
        1,
        vec![contract(
            "Depreacted",
            ContractKind::Contract,
            at(source, "contract Depreacted", 0),
            vec![function(
                "give",
                at(source, "function give", 0),
                vec![block(vec![
                    expr_stmt(
                        call(
                            FunctionCallKind::FunctionCall,
                            None,
                            member(
                                "transfer",
                                Some("function (uint256)"),
                                Some("t_function_transfer_nonpayable$_t_uint256_$returns$__$"),
                                payable_expr(0),
                                at(source, "payable(msg.sender).transfer", 0),
                            ),
                            vec![],
                            at(source, "payable(msg.sender).transfer(1 ether)", 0),
                        ),
                        at(source, "payable(msg.sender).transfer(1 ether)", 0),
                    ),
                    expr_stmt(
                        call(
                            FunctionCallKind::FunctionCall,
                            None,
                            member(
                                "send",
                                Some("function (uint256) returns (bool)"),
                                Some("t_function_send_nonpayable$_t_uint256_$returns$_t_bool_$"),
                                payable_expr(1),
                                at(source, "payable(msg.sender).send", 0),
                            ),
                            vec![],
                            at(source, "payable(msg.sender).send(1 ether)", 0),
                        ),
                        at(source, "payable(msg.sender).send(1 ether)", 0),
                    ),
                ])],
            )],
        )],
    );
    let findings = run(source, tree, vec![Rule::Deprecated]);

    assert_eq!(findings.lines_for_findings_with_code("deprecated", 0), [5, 6]);
}

#[test]
fn token_transfer() {
    let source = "pragma solidity 0.8.0;

interface IERC20 {
    function transfer(address, uint256) external returns (bool);
}

contract Depreacted {
    function give(IERC20 tok) public {
        tok.transfer(msg.sender, 1 ether);
    }
}";
    let tree = su_root(
        "/project/src/Depreacted.sol",
        1,
        vec![
            contract(
                "IERC20",
                ContractKind::Interface,
                at(source, "interface IERC20", 0),
                vec![],
            ),
            contract(
                "Depreacted",
                ContractKind::Contract,
                at(source, "contract Depreacted", 0),
                vec![function(
                    "give",
                    at(source, "function give", 0),
                    vec![
                        param("tok", at(source, "IERC20 tok", 0)),
                        block(vec![expr_stmt(
                            call(
                                FunctionCallKind::FunctionCall,
                                Some("bool"),
                                member(
                                    "transfer",
                                    Some("function (address,uint256) external returns (bool)"),
                                    Some(
                                        "t_function_external_nonpayable$_t_address_$_t_uint256_$returns$_t_bool_$",
                                    ),
                                    ident("tok", Some("contract IERC20"), None, at(source, "tok.", 0)),
                                    at(source, "tok.transfer", 0),
                                ),
                                vec![],
                                at(source, "tok.transfer(msg.sender, 1 ether)", 0),
                            ),
                            at(source, "tok.transfer(msg.sender, 1 ether)", 0),
                        )]),
                    ],
                )],
            ),
        ],
    );
    let findings = run(source, tree, vec![Rule::Deprecated]);

    assert!(!findings.has_with_code("deprecated", 0));
}

#[test]
fn unsafe_downcast() {
    let source = "pragma solidity 0.8.0;

contract Down {
    function down() public {
        uint256 x = 2**234;
        uint32 time = uint32(block.timestamp);
        uint32 number = uint32(block.number);
        uint48 num = uint48(x);
        uint256 big = uint48(num);
    }
}";
    let cast_member = |target: &str, member_name: &str, pat: &str| -> Node {
        call(
            FunctionCallKind::TypeConversion,
            Some(target),
            n(
                NodeKind::ElementaryTypeNameExpression(ElementaryTypeNameExpression {
                    name: s(target),
                }),
                at(source, pat, 0),
                vec![],
            ),
            vec![member(
                member_name,
                Some("uint256"),
                None,
                ident("block", Some("block"), None, at(source, pat, 0)),
                at(source, pat, 0),
            )],
            at(source, pat, 0),
        )
    };
    let cast_ident = |target: &str, arg: &str, arg_ts: &str, pat: &str| -> Node {
        call(
            FunctionCallKind::TypeConversion,
            Some(target),
            n(
                NodeKind::ElementaryTypeNameExpression(ElementaryTypeNameExpression {
                    name: s(target),
                }),
                at(source, pat, 0),
                vec![],
            ),
            vec![ident(arg, Some(arg_ts), None, at(source, pat, 0))],
            at(source, pat, 0),
        )
    };
    let tree = su_root(
        "/project/src/Down.sol",
        1,
        vec![contract(
            "Down",
            ContractKind::Contract,
            at(source, "contract Down", 0),
            vec![function(
                "down",
                at(source, "function down", 0),
                vec![block(vec![
                    var_decl_stmt(
                        vec![param("x", at(source, "uint256 x", 0))],
                        at(source, "uint256 x", 0),
                    ),
                    var_decl_stmt(
                        vec![
                            param("time", at(source, "uint32 time", 0)),
                            cast_member("uint32", "timestamp", "uint32(block.timestamp)"),
                        ],
                        at(source, "uint32 time", 0),
                    ),
                    var_decl_stmt(
                        vec![
                            param("number", at(source, "uint32 number", 0)),
                            cast_member("uint32", "number", "uint32(block.number)"),
                        ],
                        at(source, "uint32 number", 0),
                    ),
                    var_decl_stmt(
                        vec![
                            param("num", at(source, "uint48 num", 0)),
                            cast_ident("uint48", "x", "uint256", "uint48(x)"),
                        ],
                        at(source, "uint48 num", 0),
                    ),
                    var_decl_stmt(
                        vec![
                            param("big", at(source, "uint256 big", 0)),
                            cast_ident("uint48", "num", "uint48", "uint48(num)"),
                        ],
                        at(source, "uint256 big", 0),
                    ),
                ])],
            )],
        )],
    );
    let findings = run(source, tree, vec![Rule::Downcast]);

    assert_eq!(findings.lines_for_findings_with_code("downcast", 0), [6, 7, 8]);
}

const TOKEN_TRANSFER_TS: &str = "function (address,uint256) external view returns (bool)";

fn erc20_pull_tree(source: &str, member_name: &str, ts: &str) -> Node {
    let call_pat = format!("token.{}", member_name);
    su_root(
        "/project/src/SafeTransfer.sol",
        1,
        vec![
            contract(
                "IERC20",
                ContractKind::Interface,
                at(source, "interface IERC20", 0),
                vec![],
            ),
            contract(
                "SafeTransfer",
                ContractKind::Contract,
                at(source, "contract SafeTransfer", 0),
                vec![
                    n(
                        NodeKind::VariableDeclaration(VariableDeclaration {
                            id: 0,
                            name: s("owner"),
                            state_variable: true,
                            indexed: false,
                            mutability: Mutability::Immutable,
                            visibility: Visibility::Internal,
                            declared_type: Some(solhunt::ast::ElementaryTypeName {
                                name: s("address"),
                            }),
                        }),
                        at(source, "address immutable owner", 0),
                        vec![],
                    ),
                    function(
                        "pull",
                        at(source, "function pull", 0),
                        vec![
                            param("token", at(source, "IERC20 token", 0)),
                            block(vec![expr_stmt(
                                call(
                                    FunctionCallKind::FunctionCall,
                                    Some("bool"),
                                    member(
                                        member_name,
                                        Some(ts),
                                        None,
                                        ident(
                                            "token",
                                            Some("contract IERC20"),
                                            None,
                                            at(source, &call_pat, 0),
                                        ),
                                        at(source, &call_pat, 0),
                                    ),
                                    vec![],
                                    at(source, &call_pat, 0),
                                ),
                                at(source, &call_pat, 0),
                            )]),
                        ],
                    ),
                ],
            ),
        ],
    )
}

#[test]
fn usage_of_transfer() {
    let source = "pragma solidity 0.8.0;

interface IERC20 {
  function transfer(address, uint256) external view returns (bool);
}

contract SafeTransfer {
    address immutable owner = msg.sender;

    function pull(IERC20 token) public view returns (int256) {
        token.transfer(owner, 100);
    }
}";
    let findings = run(
        source,
        erc20_pull_tree(source, "transfer", TOKEN_TRANSFER_TS),
        vec![Rule::Erc20],
    );

    assert_eq!(findings.lines_for_findings_with_code("erc20", 0), vec![11]);
}

#[test]
fn deprecated_safe_approve() {
    let source = "pragma solidity ^0.8.0;

interface IERC20 {
    function safeApprove(address, uint256) external;
}

contract SafeApprove {
    function approve(IERC20 token) public {
        token.safeApprove(address(0), 123456);
    }
}";
    let tree = su_root(
        "/project/src/SafeApprove.sol",
        1,
        vec![
            contract(
                "IERC20",
                ContractKind::Interface,
                at(source, "interface IERC20", 0),
                vec![],
            ),
            contract(
                "SafeApprove",
                ContractKind::Contract,
                at(source, "contract SafeApprove", 0),
                vec![function(
                    "approve",
                    at(source, "function approve", 0),
                    vec![
                        param("token", at(source, "IERC20 token", 0)),
                        block(vec![expr_stmt(
                            call(
                                FunctionCallKind::FunctionCall,
                                None,
                                member(
                                    "safeApprove",
                                    Some("function (address,uint256) external"),
                                    None,
                                    ident(
                                        "token",
                                        Some("contract IERC20"),
                                        None,
                                        at(source, "token.safeApprove", 0),
                                    ),
                                    at(source, "token.safeApprove", 0),
                                ),
                                vec![],
                                at(source, "token.safeApprove(address(0), 123456)", 0),
                            ),
                            at(source, "token.safeApprove(address(0), 123456)", 0),
                        )]),
                    ],
                )],
            ),
        ],
    );
    let findings = run(source, tree, vec![Rule::Erc20]);

    assert_eq!(findings.lines_for_findings_with_code("erc20", 1), vec![9]);
}

#[test]
fn eth_transfer() {
    let source = "pragma solidity ^0.8.0;

contract EthTransfer {
    function ethTransfer() public {
        payable(msg.sender).transfer(address(this).balance);
    }
}";
    let tree = su_root(
        "/project/src/EthTransfer.sol",
        1,
        vec![contract(
            "EthTransfer",
            ContractKind::Contract,
            at(source, "contract EthTransfer", 0),
            vec![function(
                "ethTransfer",
                at(source, "function ethTransfer", 0),
                vec![block(vec![expr_stmt(
                    call(
                        FunctionCallKind::FunctionCall,
                        None,
                        member(
                            "transfer",
                            Some("function (uint256)"),
                            Some("t_function_transfer_nonpayable$_t_uint256_$returns$__$"),
                            call(
                                FunctionCallKind::TypeConversion,
                                Some("address payable"),
                                ident("payable", None, None, at(source, "payable", 0)),
                                vec![member(
                                    "sender",
                                    Some("address"),
                                    None,
                                    ident("msg", Some("msg"), None, at(source, "msg.sender", 0)),
                                    at(source, "msg.sender", 0),
                                )],
                                at(source, "payable(msg.sender)", 0),
                            ),
                            at(source, "payable(msg.sender).transfer", 0),
                        ),
                        vec![],
                        at(source, "payable(msg.sender).transfer(address(this).balance)", 0),
                    ),
                    at(source, "payable(msg.sender).transfer(address(this).balance)", 0),
                )])],
            )],
        )],
    );
    let findings = run(source, tree, vec![Rule::Erc20]);

    assert!(!findings.has_with_code("erc20", 0));
    assert!(!findings.has_with_code("erc20", 3));
}

#[test]
fn safe_transfer() {
    let source = "pragma solidity 0.8.0;

interface IERC20 {
  function safeTransfer(address, uint256) external view returns (bool);
}

contract SafeTransfer {
    address immutable owner = msg.sender;

    function pull(IERC20 token) public view returns (int256) {
        token.safeTransfer(owner, 100);
    }
}";
    let findings = run(
        source,
        erc20_pull_tree(source, "safeTransfer", TOKEN_TRANSFER_TS),
        vec![Rule::Erc20],
    );

    assert!(!findings.has_with_code("erc20", 0));
}

#[test]
fn transfer_ret_checked() {
    let source = "pragma solidity 0.8.0;

interface IERC20 {
  function transfer(address, uint256) external view returns (bool);
}

contract SafeTransfer {
    address immutable owner = msg.sender;

    function pull(IERC20 token) public view returns (int256) {
        require(token.transfer(owner, 100));
        bool ret = token.transfer(owner, 100);
        require(ret);
    }
}";
    let transfer_call = |occ: usize| -> Node {
        call(
            FunctionCallKind::FunctionCall,
            Some("bool"),
            member(
                "transfer",
                Some(TOKEN_TRANSFER_TS),
                None,
                ident("token", Some("contract IERC20"), None, at(source, "token.transfer", occ)),
                at(source, "token.transfer", occ),
            ),
            vec![],
            at(source, "token.transfer(owner, 100)", occ),
        )
    };
    let tree = su_root(
        "/project/src/SafeTransfer.sol",
        1,
        vec![
            contract(
                "IERC20",
                ContractKind::Interface,
                at(source, "interface IERC20", 0),
                vec![],
            ),
            contract(
                "SafeTransfer",
                ContractKind::Contract,
                at(source, "contract SafeTransfer", 0),
                vec![function(
                    "pull",
                    at(source, "function pull", 0),
                    vec![
                        param("token", at(source, "IERC20 token", 0)),
                        block(vec![
                            expr_stmt(
                                call(
                                    FunctionCallKind::FunctionCall,
                                    None,
                                    ident("require", None, None, at(source, "require", 0)),
                                    vec![transfer_call(0)],
                                    at(source, "require(token.transfer", 0),
                                ),
                                at(source, "require(token.transfer", 0),
                            ),
                            var_decl_stmt(
                                vec![param("ret", at(source, "bool ret", 0)), transfer_call(1)],
                                at(source, "bool ret", 0),
                            ),
                            expr_stmt(
                                call(
                                    FunctionCallKind::FunctionCall,
                                    None,
                                    ident("require", None, None, at(source, "require(ret)", 0)),
                                    vec![ident("ret", Some("bool"), None, at(source, "ret)", 0))],
                                    at(source, "require(ret)", 0),
                                ),
                                at(source, "require(ret)", 0),
                            ),
                        ]),
                    ],
                )],
            ),
        ],
    );
    let findings = run(source, tree, vec![Rule::Erc20]);

    assert!(!findings.has_with_code("erc20", 3));
}

#[test]
fn unlocked_pragma() {
    let source = "pragma solidity ^0.8.0;

contract UnlockedPragma {
}";
    let tree = su_root(
        "/project/src/UnlockedPragma.sol",
        1,
        vec![
            pragma(vec!["solidity", "^", "0.8", ".0"], at(source, "pragma solidity", 0)),
            contract(
                "UnlockedPragma",
                ContractKind::Contract,
                at(source, "contract UnlockedPragma", 0),
                vec![],
            ),
        ],
    );
    let findings = run(source, tree, vec![Rule::Misc]);

    assert_eq!(findings.lines_for_findings_with_code("misc", 0), vec![1]);
}

#[test]
fn deprecated_functions() {
    let source = "pragma solidity ^0.8.0;

contract DeprecatedFunctions {
    function _setupRole(bytes32, address) internal virtual {}

    function doDeprecatedThings(bytes32 role, address account) public {
        _setupRole(role, account);
    }
}";
    let tree = su_root(
        "/project/src/DeprecatedFunctions.sol",
        1,
        vec![
            pragma(vec!["solidity", "^", "0.8", ".0"], at(source, "pragma solidity", 0)),
            contract(
                "DeprecatedFunctions",
                ContractKind::Contract,
                at(source, "contract DeprecatedFunctions", 0),
                vec![
                    n(
                        NodeKind::FunctionDefinition(FunctionDefinition {
                            name: s("_setupRole"),
                            kind: FunctionKind::Function,
                            visibility: Visibility::Internal,
                            implemented: true,
                            modifiers: Vec::new(),
                        }),
                        at(source, "function _setupRole", 0),
                        vec![block(vec![])],
                    ),
                    function(
                        "doDeprecatedThings",
                        at(source, "function doDeprecatedThings", 0),
                        vec![block(vec![expr_stmt(
                            call(
                                FunctionCallKind::FunctionCall,
                                None,
                                ident(
                                    "_setupRole",
                                    None,
                                    Some(
                                        "t_function_internal_nonpayable$_t_bytes32_$_t_address_$returns$__$",
                                    ),
                                    at(source, "_setupRole(role", 0),
                                ),
                                vec![],
                                at(source, "_setupRole(role, account)", 0),
                            ),
                            at(source, "_setupRole(role, account)", 0),
                        )])],
                    ),
                ],
            ),
        ],
    );
    let findings = run(source, tree, vec![Rule::Misc]);

    assert_eq!(findings.lines_for_findings_with_code("misc", 1), vec![7]);
}

#[test]
fn push0_ver() {
    let source = "pragma solidity ^0.8.0;

contract C1 {}

pragma solidity >=0.7.0;

contract C2 {}
";
    let tree = su_root(
        "/project/src/C1.sol",
        1,
        vec![
            pragma(vec!["solidity", "^", "0.8", ".0"], at(source, "pragma solidity ^", 0)),
            contract("C1", ContractKind::Contract, at(source, "contract C1", 0), vec![]),
            pragma(vec!["solidity", ">=", "0.7", ".0"], at(source, "pragma solidity >=", 0)),
            contract("C2", ContractKind::Contract, at(source, "contract C2", 0), vec![]),
        ],
    );
    let findings = run(source, tree, vec![Rule::Misc]);

    assert_eq!(findings.lines_for_findings_with_code("misc", 2), vec![1, 5]);
}
