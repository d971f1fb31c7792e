use crate2nix::render::{cfg_to_nix_expr, cfg_to_nix_expr_filter, escape_nix_string};
use crate2nix::target_cfg::{tokenize, Cfg, CfgExpr, MalformedExpression, Token};

fn name(value: &str) -> CfgExpr {
    CfgExpr::Value(Cfg::Name(value.to_string()))
}

fn kv(key: &str, value: &str) -> CfgExpr {
    CfgExpr::Value(Cfg::KeyPair(key.to_string(), value.to_string()))
}

#[test]
fn test_render_cfg_to_nix_expr() {
    assert_eq!("target.\"unix\"", &cfg_to_nix_expr(&name("unix")));
    assert_eq!("(target.\"os\" == \"linux\")", &cfg_to_nix_expr(&kv("target_os", "linux")));
    assert_eq!(
        "(!(target.\"os\" == \"linux\"))",
        &cfg_to_nix_expr(&CfgExpr::Not(Box::new(kv("target_os", "linux"))))
    );
    assert_eq!(
        "(target.\"unix\" || (target.\"os\" == \"linux\"))",
        &cfg_to_nix_expr(&CfgExpr::Any(vec![name("unix"), kv("target_os", "linux")]))
    );
    assert_eq!(
        "(target.\"unix\" && (target.\"os\" == \"linux\"))",
        &cfg_to_nix_expr(&CfgExpr::All(vec![name("unix"), kv("target_os", "linux")]))
    );
}

#[test]
fn feature_key_asks_the_activated_features() {
    assert_eq!(
        cfg_to_nix_expr(&kv("feature", "std")),
        "(builtins.elem \"std\" resolvedDefaultFeatures)"
    );
    assert_eq!(cfg_to_nix_expr(&kv("features", "std")), "(target.\"features\" == \"std\")");
}

#[test]
fn lists_are_joined_from_left_to_right() {
    assert_eq!(cfg_to_nix_expr(&CfgExpr::All(vec![name("a")])), "(target.\"a\")");
    assert_eq!(
        cfg_to_nix_expr(&CfgExpr::Any(vec![name("a"), name("b"), name("c")])),
        "(target.\"a\" || target.\"b\" || target.\"c\")"
    );
    assert_eq!(
        cfg_to_nix_expr(&CfgExpr::All(vec![
            CfgExpr::Any(vec![name("a"), name("b")]),
            CfgExpr::Not(Box::new(name("target_c")))
        ])),
        "((target.\"a\" || target.\"b\") && (!target.\"c\"))"
    );
}

#[test]
fn parsed_conjunction_is_rendered_independent_of_blanks() {
    let want = "(target.\"unix\" && (target.\"os\" == \"linux\"))";
    for text in [
        "all(unix, cfg(target_os = \"linux\"))",
        "all(unix,cfg(target_os=\"linux\"))",
        "  all ( unix ,   cfg ( target_os   =   \"linux\" ) )  ",
        "all(unix, target_os = \"linux\")",
    ] {
        let expr = CfgExpr::from_str(text).unwrap();
        assert_eq!(cfg_to_nix_expr(&expr), want, "for {:?}", text);
    }
}

#[test]
fn conditions_are_parsed() {
    assert_eq!(CfgExpr::from_str("unix"), Ok(name("unix")));
    assert_eq!(CfgExpr::from_str("target_os = \"linux\""), Ok(kv("target_os", "linux")));
    assert_eq!(CfgExpr::from_str("not(windows)"), Ok(CfgExpr::Not(Box::new(name("windows")))));
    assert_eq!(
        CfgExpr::from_str("any(unix, not(all(a, b = \"c d\")))"),
        Ok(CfgExpr::Any(vec![
            name("unix"),
            CfgExpr::Not(Box::new(CfgExpr::All(vec![name("a"), kv("b", "c d")])))
        ]))
    );
    assert_eq!(CfgExpr::from_str("all(a)"), Ok(CfgExpr::All(vec![name("a")])));
    assert_eq!(CfgExpr::from_str("cfg"), Ok(name("cfg")));
    assert_eq!(CfgExpr::from_str("cfg(unix)"), Ok(name("unix")));
    assert_eq!(CfgExpr::from_str("_x9"), Ok(name("_x9")));
    assert_eq!(CfgExpr::from_str("a = \"\""), Ok(kv("a", "")));
}

#[test]
fn malformed_conditions_are_refused() {
    for text in [
        "",
        " ",
        "all()",
        "any()",
        "all(a,)",
        "all(a b)",
        "all(a",
        "all a",
        "not()",
        "not(a, b)",
        "not a",
        "a b",
        "a =",
        "a = b",
        "a = \"open",
        "= \"x\"",
        "\"x\"",
        "(a)",
        "a)",
        "9a",
        "a-b",
        "a\tb",
        "cfg(a",
        "all(a, b))",
        "é",
    ] {
        assert_eq!(CfgExpr::from_str(text), Err(MalformedExpression), "for {:?}", text);
    }
}

#[test]
fn texts_are_split_into_tokens() {
    assert_eq!(
        tokenize("all(a_1 , b=\"x y\")"),
        Some(vec![
            Token::Ident("all".to_string()),
            Token::LeftParen,
            Token::Ident("a_1".to_string()),
            Token::Comma,
            Token::Ident("b".to_string()),
            Token::Equals,
            Token::Text("x y".to_string()),
            Token::RightParen,
        ])
    );
    assert_eq!(tokenize(""), Some(vec![]));
    assert_eq!(tokenize("   "), Some(vec![]));
    assert_eq!(tokenize("\"open"), None);
    assert_eq!(tokenize("a.b"), None);
}

#[test]
fn filter_reads_conditions_and_platform_names() {
    assert_eq!(
        cfg_to_nix_expr_filter("cfg(all(unix, target_os = \"linux\"))"),
        Ok("(target.\"unix\" && (target.\"os\" == \"linux\"))".to_string())
    );
    assert_eq!(cfg_to_nix_expr_filter("cfg(unix)"), Ok("target.\"unix\"".to_string()));
    assert_eq!(
        cfg_to_nix_expr_filter("x86_64-unknown-linux-gnu"),
        Ok("(stdenv.hostPlatform.config == \"x86_64-unknown-linux-gnu\")".to_string())
    );
    assert_eq!(cfg_to_nix_expr_filter("cfg(unix"), Ok("(stdenv.hostPlatform.config == \"cfg(unix\")".to_string()));
    assert_eq!(cfg_to_nix_expr_filter("cfg()"), Err(MalformedExpression));
    assert_eq!(cfg_to_nix_expr_filter("cfg(all())"), Err(MalformedExpression));
}

#[test]
fn nix_strings_are_escaped() {
    assert_eq!("\"abc\"", escape_nix_string("abc"));
    assert_eq!("\"a\\\"bc\"", escape_nix_string("a\"bc"));
    assert_eq!("\"a$bc\"", escape_nix_string("a$bc"));
    assert_eq!("\"a$\"", escape_nix_string("a$"));
    assert_eq!("\"a\\${bc\"", escape_nix_string("a${bc"));
    assert_eq!("\"\"", escape_nix_string(""));
    assert_eq!("\"a\\\\b\"", escape_nix_string("a\\b"));
    assert_eq!("\"$\\${\\${\"", escape_nix_string("$${${"));
    assert_eq!("\"üñí\"", escape_nix_string("üñí"));
}
