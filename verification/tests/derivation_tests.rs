use nixstore::store::Store;
use nixstore::ast::{Ast, AstNode};
use nixstore::derivation::Derivation;
use nixstore::store::MockStore;
use nixstore::token::TokType;

pub const HELLO_DRV: &str = r#"Derive([("out","/nix/store/gfri16c7bbgfjj44c00q4sfw5wb5i5g9-hello-2.10","","")],[("/nix/store/130cylf8ms564hb4h7a8jqmdnqaz4xc2-bash-4.4-p23.drv",["out"]),("/nix/store/jwwz66zxkzm7ymcpfs3h26x39kk3rvm6-hello-2.10.tar.gz.drv",["out"]),("/nix/store/v0d85x08ww9xdgghp6my7rc0m3lzkfy4-stdenv-linux.drv",["out"])],["/nix/store/yigg1q0y7ynnm0mjl60341aad62sngpd-default-builder.sh"],"x86_64-linux","/nix/store/yxdxssjvldpx2gh6d9ggv0a9dg1v6z3i-bash-4.4-p23/bin/bash",["-e","/nix/store/yigg1q0y7ynnm0mjl60341aad62sngpd-default-builder.sh"],[("buildInputs",""),("builder","/nix/store/yxdxssjvldpx2gh6d9ggv0a9dg1v6z3i-bash-4.4-p23/bin/bash"),("configureFlags",""),("depsBuildBuild",""),("depsBuildBuildPropagated",""),("depsBuildTarget",""),("depsBuildTargetPropagated",""),("depsHostHost",""),("depsHostHostPropagated",""),("depsTargetTarget",""),("depsTargetTargetPropagated",""),("doCheck","1"),("doInstallCheck",""),("name","hello-2.10"),("nativeBuildInputs",""),("out","/nix/store/gfri16c7bbgfjj44c00q4sfw5wb5i5g9-hello-2.10"),("outputs","out"),("patches",""),("pname","hello"),("propagatedBuildInputs",""),("propagatedNativeBuildInputs",""),("src","/nix/store/3x7dwzq014bblazs7kq20p9hyzz0qh8g-hello-2.10.tar.gz"),("stdenv","/nix/store/y4rca6a87l2l49p55m2mpnwndma21mkx-stdenv-linux"),("strictDeps",""),("system","x86_64-linux"),("version","2.10")])"#;

#[test]
fn to_tok_vec() {
    let drv = r#"Derive([("out","/nix/store")]"#;

    let drv = TokType::parse(drv).unwrap();

    let drv_exp = vec![
        TokType::StartToken,
        TokType::LParen,
        TokType::LBracket,
        TokType::LParen,
        TokType::String("out".to_string()),
        TokType::Comma,
        TokType::String("/nix/store".to_string()),
        TokType::RParen,
        TokType::RBracket,
    ];

    assert_eq!(drv, drv_exp);
}

#[test]
fn string_array() {
    let tok = vec![
        TokType::StartToken,
        TokType::LParen,
        TokType::LBracket,
        TokType::String("Hello".to_string()),
        TokType::Comma,
        TokType::String("World".to_string()),
        TokType::RBracket,
        TokType::RParen,
    ];

    let ast = Ast::from_lexer(tok).unwrap();

    let ast_exp = AstNode::Tuple(vec![AstNode::Array(vec![
        AstNode::String("Hello".to_string()),
        AstNode::String("World".to_string()),
    ])]);

    assert!(ast.def.ast_eq(&ast_exp));
}

#[test]
fn lex_and_ast_hello() {
    let drv = TokType::parse(HELLO_DRV).unwrap();

    let _ast = Ast::from_lexer(drv).unwrap();
}

#[test]
fn derivation_read_basic_drv() {
    let store = MockStore::new();

    let drv = Derivation::from_str(HELLO_DRV, &store).unwrap();
    assert_eq!(drv.platform, "x86_64-linux");
}

#[test]
fn mod_read_basic_drv() {
    let store = MockStore::new();

    let drv = Derivation::from_str(HELLO_DRV, &store).unwrap();
    assert_eq!(drv.outputs.len(), 1);
    assert_eq!(drv.inputs.len(), 3);
    assert_eq!(drv.input_srcs.len(), 1);
    assert_eq!(drv.args.len(), 2);
    assert_eq!(drv.env.len(), 26);
    assert!(!drv.is_builtin());
}

#[test]
fn attribute_lookups() {
    let store = MockStore::new();
    let drv = Derivation::from_str(HELLO_DRV, &store).unwrap();
    let drv_path = store
        .parse_store_path("/nix/store/130cylf8ms564hb4h7a8jqmdnqaz4xc2-bash-4.4-p23.drv")
        .unwrap();
    let parsed = nixstore::derivation::ParsedDerivation::new(drv_path, drv).unwrap();

    assert_eq!(parsed.get_string_attr("pname"), Some("hello".to_string()));
    assert!(parsed.get_bool_attr("doCheck"));
    assert!(!parsed.get_bool_attr("doInstallCheck"));
    assert!(parsed.substitutes_allowed());
    assert!(!parsed.content_addressed());
    assert!(parsed.can_build_locally(
        "x86_64-linux",
        &Vec::new(),
        &vec!["kvm".to_string()]
    ));
    assert!(!parsed.can_build_locally("aarch64-linux", &Vec::new(), &Vec::new()));
}

#[test]
fn malformed_derivations_are_refused() {
    let store = MockStore::new();
    assert!(Derivation::from_str("Derive([)", &store).is_err());
    assert!(Derivation::from_str("Derive([],[],[],\"s\",\"b\",[])", &store).is_err());
    assert!(Derivation::from_str("Nope", &store).is_err());
}

#[test]
fn print_parse_round_trip() {
    let store = MockStore::new();
    let d1 = Derivation::from_str(HELLO_DRV, &store).unwrap();
    let printed = d1.print(&store);
    assert_eq!(printed, HELLO_DRV);

    let d2 = Derivation::from_str(&printed, &store).unwrap();
    let printed_again = d2.print(&store);
    assert_eq!(printed, printed_again);
}

#[test]
fn fixed_output_derivation_populates_the_hash() {
    let store = MockStore::new();
    let text = "Derive([(\"out\",\"/nix/store/bbbbbbbbbbbbbbbbbbbbbbbbbbbbbbbb-a\",\"r:sha256\",\"abc123\")],[],[],\"x86_64-linux\",\"/bin/sh\",[],[])";
    let drv = Derivation::from_str(text, &store).unwrap();
    assert_eq!(drv.outputs.len(), 1);
    assert_eq!(drv.outputs[0].1.hash, Some("r:sha256:abc123".to_string()));

    let printed = drv.print(&store);
    assert_eq!(printed, text);
}
