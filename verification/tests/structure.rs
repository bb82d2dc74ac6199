use vacore::errors::{add_error, into_multi_res, merge_multi_result, Error, MultiError, Type};
use vacore::idx::IdRange;
use vacore::item_lower::build_item_tree;
use vacore::item_tree::{Domain, ItemTreeNode, Module, Port, RootItem, ScopeItem, Ty};
use vacore::parser::{ParamExpr, Parser, SymbolDeclaration, INF_BITS};
use vacore::span::Span;
use vacore::syntax::{
    AttrDecl, BlockDecl, BranchDecl, DisciplineDecl, ModuleDecl, ModuleItem, NatureDecl, NetDecl,
    ParamDecl, PortDecl, RootDecl, SourceFile, VarDecl,
};
use vacore::token::Token;

fn sample_file() -> SourceFile {
    SourceFile {
        items: vec![
            RootDecl::Nature(NatureDecl {
                name: String::from("Voltage"),
                parent: None,
                access: Some(String::from("V")),
                ddt_nature: None,
                idt_nature: None,
                attrs: vec![AttrDecl { name: String::from("units"), ast_id: 1 }],
                ast_id: 0,
            }),
            RootDecl::Discipline(DisciplineDecl {
                name: String::from("electrical"),
                potential: Some(String::from("Voltage")),
                flow: Some(String::from("Current")),
                domain: Some(Domain::Continuous),
                attrs: vec![],
                ast_id: 2,
            }),
            RootDecl::Module(ModuleDecl {
                name: String::from("res"),
                expected_ports: vec![String::from("a"), String::from("b")],
                head_ports: vec![
                    PortDecl {
                        name: String::from("a"),
                        discipline: Some(String::from("electrical")),
                        is_input: true,
                        is_output: true,
                        ast_id: 3,
                    },
                    PortDecl {
                        name: String::from("b"),
                        discipline: Some(String::from("electrical")),
                        is_input: true,
                        is_output: true,
                        ast_id: 4,
                    },
                ],
                items: vec![
                    ModuleItem::Net(NetDecl {
                        name: String::from("mid"),
                        discipline: Some(String::from("electrical")),
                        ast_id: 5,
                    }),
                    ModuleItem::Branch(BranchDecl { name: String::from("br"), ast_id: 6 }),
                    ModuleItem::Param(ParamDecl {
                        name: String::from("r"),
                        ty: Ty::Real,
                        ast_id: 7,
                    }),
                    ModuleItem::Var(VarDecl {
                        name: String::from("i"),
                        ty: Ty::Real,
                        ast_id: 8,
                    }),
                    ModuleItem::Block(BlockDecl {
                        name: String::from("init"),
                        params: vec![],
                        vars: vec![VarDecl {
                            name: String::from("tmp"),
                            ty: Ty::Integer,
                            ast_id: 10,
                        }],
                        blocks: vec![BlockDecl {
                            name: String::from("inner"),
                            params: vec![],
                            vars: vec![],
                            blocks: vec![],
                            ast_id: 11,
                        }],
                        ast_id: 9,
                    }),
                ],
                ast_id: 12,
            }),
        ],
    }
}

#[test]
fn item_tree_build_collects_every_arena() {
    let tree = build_item_tree(&sample_file());
    assert_eq!(tree.top_level.len(), 3);
    assert!(matches!(tree.top_level[0], RootItem::Nature(0)));
    assert!(matches!(tree.top_level[1], RootItem::Discipline(0)));
    assert!(matches!(tree.top_level[2], RootItem::Module(0)));
    assert_eq!(tree.data.natures.items.len(), 1);
    assert_eq!(tree.data.nature_attrs.items.len(), 1);
    assert_eq!(tree.data.disciplines.items.len(), 1);
    assert_eq!(tree.data.modules.items.len(), 1);
    assert_eq!(tree.data.ports.items.len(), 2);
    assert_eq!(tree.data.nets.items.len(), 1);
    assert_eq!(tree.data.branches.items.len(), 1);
    assert_eq!(tree.data.parameters.items.len(), 1);
    assert_eq!(tree.data.variables.items.len(), 2);
    assert_eq!(tree.data.block_scopes.items.len(), 2);

    let m = &tree.data.modules.items[0];
    assert_eq!(m.name, "res");
    assert_eq!(m.expected_ports, vec![String::from("a"), String::from("b")]);
    assert_eq!(m.head_ports.start, 0);
    assert_eq!(m.head_ports.end, 2);
    assert_eq!(m.body_ports.start, 2);
    assert_eq!(m.body_ports.end, 2);
    assert_eq!(m.scope_items.len(), 3);
    // the nested block is lowered before its parent, so the parent holds
    // the larger handle
    let inner = &tree.data.block_scopes.items[0];
    let outer = &tree.data.block_scopes.items[1];
    assert_eq!(inner.name, "inner");
    assert_eq!(outer.name, "init");
    assert_eq!(outer.scopes, vec![0u32]);

    let d = &tree.data.disciplines.items[0];
    assert_eq!(d.domain, Some(Domain::Continuous));
}

#[test]
fn item_tree_build_is_a_pure_function_of_the_file() {
    let a = build_item_tree(&sample_file());
    let b = build_item_tree(&sample_file());
    assert_eq!(a.top_level, b.top_level);
    assert_eq!(a.data.modules.items.len(), b.data.modules.items.len());
    assert_eq!(a.data.modules.items[0].name, b.data.modules.items[0].name);
    assert_eq!(
        a.data.modules.items[0].scope_items,
        b.data.modules.items[0].scope_items
    );
    assert_eq!(a.data.ports.items.len(), b.data.ports.items.len());
    for (x, y) in a.data.ports.items.iter().zip(b.data.ports.items.iter()) {
        assert_eq!(x.name, y.name);
        assert_eq!(x.ast_id, y.ast_id);
    }
}

#[test]
fn module_ports_concatenates_head_and_body_ranges() {
    let tree = build_item_tree(&sample_file());
    let all = tree.data.modules.items[0].ports();
    assert_eq!(all.start, 0);
    assert_eq!(all.end, 2);
    assert!(!all.is_empty());
}

#[test]
fn id_range_extend_requires_adjacency() {
    let a: IdRange<Port> = IdRange::new(0, 2);
    let b: IdRange<Port> = IdRange::new(2, 5);
    let joined = a.extend(&b);
    assert_eq!(joined.start, 0);
    assert_eq!(joined.end, 5);
    assert_eq!(joined.len(), 5);
    let empty: IdRange<Port> = IdRange::new(3, 3);
    assert!(empty.is_empty());
    assert_eq!(a.nth(1), 1);
}

#[test]
fn scope_item_casts_are_mutually_inverse() {
    let item = Module::id_to_scope_item(4);
    assert_eq!(item, ScopeItem::Module(4));
    assert_eq!(Module::id_from_scope_item(item), Some(4));
    assert_eq!(Port::id_from_scope_item(item), None);
    let tree = build_item_tree(&sample_file());
    let m = Module::lookup(&tree, 0);
    assert_eq!(m.name, "res");
    assert_eq!(m.ast_id(), 12);
    let p = Port::lookup(&tree, 1);
    assert_eq!(p.name, "b");
}

#[test]
fn multi_error_collects_in_order() {
    let e1 = Error { error_type: Type::PortRedeclaration, source: Span::new(0, 1) };
    let e2 = Error { error_type: Type::MacroNotFound, source: Span::new(2, 3) };
    let mut m = MultiError(vec![e1.clone()]);
    m.add(e2.clone());
    assert_eq!(m.0.len(), 2);
    let merged = MultiError(vec![e1.clone()]).merge(MultiError(vec![e2.clone()]));
    assert_eq!(merged.0.len(), 2);
    assert!(matches!(merged.0[0].error_type, Type::PortRedeclaration));
    assert!(matches!(merged.0[1].error_type, Type::MacroNotFound));

    let ok: Result<u32, MultiError> = Ok(7);
    let bad: Result<(), MultiError> = Err(MultiError(vec![e1.clone()]));
    let combined = merge_multi_result(ok, bad);
    assert!(combined.is_err());
    assert_eq!(combined.err().unwrap().0.len(), 1);

    let single: Result<u32, Error> = Err(e1.clone());
    let widened = into_multi_res(single);
    assert_eq!(widened.err().unwrap().0.len(), 1);

    let extra = add_error(Ok(1u32), e2.clone());
    assert_eq!(extra.err().unwrap().0.len(), 1);
    let extra2 = add_error::<u32>(Err(MultiError(vec![e1])), e2);
    assert_eq!(extra2.err().unwrap().0.len(), 2);
}

fn toks(ts: Vec<Token>) -> Vec<(Token, Span)> {
    ts.into_iter()
        .enumerate()
        .map(|(i, t)| (t, Span::new(i as u32, i as u32 + 1)))
        .collect()
}

#[test]
fn parse_parameter_decl_accepts_a_full_declaration() {
    // integer gain = 5 from [0:10] exclude 7, other;
    let mut p = Parser::new(toks(vec![
        Token::Integer,
        Token::Identifier(String::from("gain")),
        Token::Assign,
        Token::IntLiteral(5),
        Token::From,
        Token::SquareBracketOpen,
        Token::IntLiteral(0),
        Token::Colon,
        Token::IntLiteral(10),
        Token::SquareBracketClose,
        Token::Exclude,
        Token::IntLiteral(7),
        Token::Comma,
        Token::Identifier(String::from("other")),
        Token::Semicolon,
    ]));
    let r = p.parse_parameter_decl(0);
    assert!(r.is_ok());
    assert_eq!(p.ast.parameters.len(), 2);
    let gain = &p.ast.parameters[0];
    assert_eq!(gain.name, "gain");
    assert_eq!(gain.ty, Ty::Integer);
    assert!(gain.default_value.is_some());
    assert_eq!(gain.included_ranges.len(), 1);
    assert!(gain.included_ranges[0].start.inclusive);
    assert!(gain.included_ranges[0].end.inclusive);
    assert_eq!(gain.excluded_ranges.len(), 1);
    let other = &p.ast.parameters[1];
    assert_eq!(other.name, "other");
    assert_eq!(other.ty, Ty::Integer);
    assert!(other.default_value.is_none());
    assert_eq!(p.symbols.len(), 2);
    assert_eq!(p.symbols[0].0, "gain");
    assert!(matches!(p.symbols[0].1, SymbolDeclaration::Parameter(0)));
}

#[test]
fn parse_parameter_decl_rejects_string_parameters() {
    let mut p = Parser::new(toks(vec![
        Token::LiteralString,
        Token::Identifier(String::from("s")),
        Token::Semicolon,
    ]));
    let r = p.parse_parameter_decl(0);
    match r {
        Err(e) => assert!(matches!(
            e.error_type,
            Type::Unsupported(vacore::errors::Unsupported::StringParameters)
        )),
        Ok(_) => panic!("string parameters must be rejected"),
    }
    assert_eq!(p.ast.parameters.len(), 0);
}

#[test]
fn parse_parameter_decl_rejects_an_unexpected_leading_token() {
    let mut p = Parser::new(toks(vec![Token::Comma]));
    let r = p.parse_parameter_decl(0);
    match r {
        Err(e) => assert!(matches!(e.error_type, Type::UnexpectedToken { .. })),
        Ok(_) => panic!("a comma is not a parameter type"),
    }
}

#[test]
fn parse_parameter_range_accepts_infinite_bounds() {
    // real w from (-inf:inf);
    let mut p = Parser::new(toks(vec![
        Token::Real,
        Token::Identifier(String::from("w")),
        Token::From,
        Token::ParenOpen,
        Token::MinusInfinity,
        Token::Colon,
        Token::Infinity,
        Token::ParenClose,
        Token::Semicolon,
    ]));
    let r = p.parse_parameter_decl(0);
    assert!(r.is_ok());
    let w = &p.ast.parameters[0];
    assert_eq!(w.ty, Ty::Real);
    assert_eq!(w.included_ranges.len(), 1);
    assert!(!w.included_ranges[0].start.inclusive);
    assert!(!w.included_ranges[0].end.inclusive);
    let hi = w.included_ranges[0].end.bound as usize;
    match p.ast.expressions[hi].0 {
        ParamExpr::RealLiteral(b) => assert_eq!(b, INF_BITS),
        _ => panic!("the upper bound must be the infinity literal"),
    }
}

#[test]
fn parser_reports_eof_for_an_empty_stream() {
    let mut p = Parser::new(Vec::new());
    let r = p.parse_parameter_decl(0);
    match r {
        Err(e) => assert!(matches!(e.error_type, Type::UnexpectedEof { .. })),
        Ok(_) => panic!("an empty stream cannot hold a declaration"),
    }
}

#[test]
fn shrinking_the_arenas_keeps_the_content() {
    let mut tree = build_item_tree(&sample_file());
    tree.shrink_to_fit();
    assert_eq!(tree.top_level.len(), 3);
    assert_eq!(tree.data.ports.items.len(), 2);
    assert_eq!(tree.data.modules.items[0].name, "res");
}
