use wright::ast::{BinaryExpression, BinaryOperator, BooleanLit, Expression, NumLit, UnderscorePattern};
use wright::fragment::Fragment;
use wright::interpreter_error::{ErrorLevel, InterpreterError};
use wright::parsers::FailureKind;
use wright::repl::{classify, next_mode, ReplCommand, ReplMode};

fn num(text: &str) -> (String, u128) {
    let (rest, n) = NumLit::parse(Fragment::whole(text)).unwrap();
    (rest.text().to_string(), n.inner)
}

#[test]
fn test_binary_expr_simple() {
    let (rest, expr) = BinaryExpression::parse(Fragment::whole("2 + 2")).unwrap();
    assert_eq!(rest.text(), "");
    assert!(matches!(expr, Expression::BinaryExpression(_)));
}

#[test]
fn binary_literal_with_separators() {
    assert_eq!(num("0b10_10"), (String::new(), 10));
}

#[test]
fn hex_literal_upper_and_lower_case() {
    assert_eq!(num("0xFF"), (String::new(), 255));
    assert_eq!(num("0xff"), (String::new(), 255));
    assert_eq!(num("0xdead_BEEF"), (String::new(), 0xdead_beef));
}

#[test]
fn decimal_literal() {
    assert_eq!(num("42"), (String::new(), 42));
    assert_eq!(num("1_000_000"), (String::new(), 1_000_000));
}

#[test]
fn literal_fragment_covers_text() {
    let (_, n) = NumLit::parse(Fragment::whole("0b1_1 rest")).unwrap();
    assert_eq!(n.get_fragment_reference().text(), "0b1_1");
    assert_eq!(n.inner, 3);
}

#[test]
fn trailing_text_is_left_unchanged() {
    assert_eq!(num("42 + x"), (" + x".to_string(), 42));
    assert_eq!(num("0xAbc;"), (";".to_string(), 0xabc));
    assert_eq!(num("0b101z"), ("z".to_string(), 5));
}

#[test]
fn prefix_without_digits_is_no_literal_of_that_base() {
    assert!(NumLit::hex_primary(Fragment::whole("0x")).is_err());
    assert!(NumLit::bin_primary(Fragment::whole("0b")).is_err());
    assert!(NumLit::bin_primary(Fragment::whole("0b2")).is_err());
    assert!(NumLit::dec_primary(Fragment::whole("_1")).is_err());
    let e = NumLit::hex_primary(Fragment::whole("0x_1")).unwrap_err();
    assert_eq!(e.kind, FailureKind::Digit);
    let e = NumLit::hex_primary(Fragment::whole("12")).unwrap_err();
    assert_eq!(e.kind, FailureKind::Tag);
    // a prefix commits the literal to its base: it is never read as a decimal zero
    for text in ["0x", "0b", "0b2", "0x_1", "0xg"] {
        let e = NumLit::parse(Fragment::whole(text)).unwrap_err();
        assert_eq!(e.kind, FailureKind::Digit);
    }
}

#[test]
fn base_readers_leave_the_rest() {
    let (rest, v) = NumLit::bin_primary(Fragment::whole("0b1012")).unwrap();
    assert_eq!((rest.text(), v), ("2", 5));
    let (rest, v) = NumLit::hex_primary(Fragment::whole("0xFF_FFzz")).unwrap();
    assert_eq!((rest.text(), v), ("zz", 65535));
    let (rest, v) = NumLit::hex_primary(Fragment::whole("0xAbC")).unwrap();
    assert_eq!((rest.text(), v), ("", 2748));
    let (rest, v) = NumLit::dec_primary(Fragment::whole("007")).unwrap();
    assert_eq!((rest.text(), v), ("", 7));
    let ones = format!("0b{}", "1".repeat(128));
    let (rest, v) = NumLit::bin_primary(Fragment::whole(&ones)).unwrap();
    assert_eq!((rest.text(), v), ("", u128::MAX));
    let too_many = format!("0b{}", "1".repeat(129));
    let e = NumLit::bin_primary(Fragment::whole(&too_many)).unwrap_err();
    assert_eq!(e.kind, FailureKind::Conversion);
}

#[test]
fn largest_value_and_overflow() {
    assert_eq!(num("340282366920938463463374607431768211455"), (String::new(), u128::MAX));
    let e = NumLit::parse(Fragment::whole("340282366920938463463374607431768211456")).unwrap_err();
    assert_eq!(e.kind, FailureKind::Conversion);
    let e = NumLit::parse(Fragment::whole("0x1_0000_0000_0000_0000_0000_0000_0000_0000")).unwrap_err();
    assert_eq!(e.kind, FailureKind::Conversion);
    assert_eq!(num("0xFFFF_FFFF_FFFF_FFFF_FFFF_FFFF_FFFF_FFFF"), (String::new(), u128::MAX));
}

#[test]
fn no_numeric_literal() {
    let e = NumLit::parse(Fragment::whole("abc")).unwrap_err();
    assert_eq!(e.kind, FailureKind::Digit);
    assert!(NumLit::parse(Fragment::whole("")).is_err());
}

#[test]
fn radix_conversions() {
    assert_eq!(NumLit::from_hex("ff").unwrap(), 255);
    assert_eq!(NumLit::from_dec("0042").unwrap(), 42);
    assert_eq!(NumLit::from_bin("1010").unwrap(), 10);
    assert!(NumLit::from_bin("102").is_err());
    assert!(NumLit::from_dec("").is_err());
    assert!(NumLit::from_hex("1_0").is_err());
    assert_eq!(NumLit::from_hex("+ff").unwrap(), 255);
    assert!(NumLit::from_dec("+").is_err());
}

#[test]
fn underscores_are_cleared() {
    assert_eq!(NumLit::clear_underscores("1_0__0_"), "100");
    assert_eq!(NumLit::clear_underscores("___"), "");
    assert_eq!(NumLit::clear_underscores("abc"), "abc");
}

#[test]
fn boolean_literals() {
    let (rest, b) = BooleanLit::parse(Fragment::whole("true")).unwrap();
    assert!(b.inner);
    assert_eq!(rest.text(), "");
    assert_eq!(b.get_fragment().text(), "true");
    let (rest, b) = BooleanLit::parse(Fragment::whole("false && x")).unwrap();
    assert!(!b.inner);
    assert_eq!(rest.text(), " && x");
    let e = BooleanLit::parse(Fragment::whole("tru")).unwrap_err();
    assert_eq!(e.kind, FailureKind::Tag);
    assert_eq!(BooleanLit::TRUE, "true");
    assert_eq!(BooleanLit::FALSE, "false");
}

#[test]
fn underscore_patterns_are_equal() {
    let src = "_ _";
    let (rest, a) = UnderscorePattern::parse(Fragment::whole(src)).unwrap();
    let (_, b) = UnderscorePattern::parse(rest.split_at(1).1).unwrap();
    assert_ne!(a.get_fragment().offset(), b.get_fragment().offset());
    assert!(UnderscorePattern::ast_eq(&a, &b));
    assert!(UnderscorePattern::parse(Fragment::whole("x")).is_err());
    assert_eq!(UnderscorePattern::UNDERSCORE, "_");
}

#[test]
fn equal_values_are_structurally_equal() {
    let (_, a) = NumLit::parse(Fragment::whole("2")).unwrap();
    let (_, b) = NumLit::parse(Fragment::whole("0b10")).unwrap();
    assert_ne!(a.frag.text(), b.frag.text());
    assert!(NumLit::ast_eq(&a, &b));
    let (_, c) = NumLit::parse(Fragment::whole("3")).unwrap();
    assert!(!NumLit::ast_eq(&a, &c));
    let (_, t) = BooleanLit::parse(Fragment::whole("true")).unwrap();
    let (_, f) = BooleanLit::parse(Fragment::whole("false")).unwrap();
    assert!(!BooleanLit::ast_eq(&t, &f));
    assert!(!Expression::ast_eq(&Expression::from(a), &t.create_expr()));
}

fn shape(e: &Expression) -> String {
    match e {
        Expression::NumLit(n) => n.inner.to_string(),
        Expression::BooleanLit(b) => b.inner.to_string(),
        Expression::BinaryExpression(b) => {
            let op = match b.op {
                BinaryOperator::Add => "+",
                BinaryOperator::Sub => "-",
                BinaryOperator::Mul => "*",
                BinaryOperator::Div => "/",
                BinaryOperator::Mod => "%",
            };
            format!("({} {} {})", shape(&b.left), op, shape(&b.right))
        }
    }
}

#[test]
fn precedence_and_grouping() {
    let (rest, e) = Expression::parse(Fragment::whole("1 + 2 * 3")).unwrap();
    assert_eq!(rest.text(), "");
    assert_eq!(shape(&e), "(1 + (2 * 3))");
    let (_, e) = Expression::parse(Fragment::whole("1 - 2 - 3")).unwrap();
    assert_eq!(shape(&e), "((1 - 2) - 3)");
    let (_, e) = Expression::parse(Fragment::whole("8/4%3*0x2+true")).unwrap();
    assert_eq!(shape(&e), "((((8 / 4) % 3) * 2) + true)");
    assert_eq!(e.get_fragment().text(), "8/4%3*0x2+true");
}

#[test]
fn expression_stops_before_dangling_operator() {
    let (rest, e) = Expression::parse(Fragment::whole("1 + 2 +")).unwrap();
    assert_eq!(rest.text(), " +");
    assert_eq!(shape(&e), "(1 + 2)");
    let e = Expression::parse(Fragment::whole("+ 1")).unwrap_err();
    assert_eq!(e.kind, FailureKind::Operand);
    assert!(BinaryExpression::parse(Fragment::whole("7")).is_err());
}

#[test]
fn expressions_compare_structurally() {
    let (_, a) = Expression::parse(Fragment::whole("2 + 0x3")).unwrap();
    let (_, b) = Expression::parse(Fragment::whole("0b10+3")).unwrap();
    let (_, c) = Expression::parse(Fragment::whole("2 - 3")).unwrap();
    assert!(Expression::ast_eq(&a, &b));
    assert!(!Expression::ast_eq(&a, &c));
}

#[test]
fn fragment_positions() {
    let f = Fragment::whole("ab\ncd\né");
    assert_eq!((f.line(), f.column()), (1, 1));
    let (head, tail) = f.split_at(4);
    assert_eq!(head.text(), "ab\nc");
    assert_eq!(tail.text(), "d\né");
    assert_eq!((tail.line(), tail.column(), tail.offset()), (2, 2, 4));
    let (_, last) = tail.split_at(3);
    assert_eq!((last.line(), last.column()), (3, 2));
    assert!(last.is_empty());
    assert_eq!(f.len(), 7);
    assert_eq!(f.char_at(6), 'é');
}

#[test]
fn interpreter_error_data() {
    let err = InterpreterError { file_name: "example.wr", reason: "Could not open file." };
    assert_eq!(err.get_name(), "I/O Error");
    assert_eq!(err.get_module(), "example.wr");
    assert_eq!(err.get_level(), ErrorLevel::Error);
    assert!(err.get_spans().is_empty());
    assert_eq!(err.get_info(), vec!["Could not open file."]);
    assert!(err.get_lines().is_empty());
}

#[test]
fn repl_commands() {
    assert_eq!(classify(":help"), ReplCommand::Help);
    assert_eq!(classify(":?"), ReplCommand::Help);
    assert_eq!(classify(":version"), ReplCommand::Version);
    assert_eq!(classify(":m"), ReplCommand::ShowMode);
    assert_eq!(classify(":quit"), ReplCommand::Quit);
    assert_eq!(classify(":exit"), ReplCommand::Quit);
    assert_eq!(classify(":c"), ReplCommand::Clear);
    assert_eq!(classify("t"), ReplCommand::SwitchTokens);
    assert_eq!(classify(":ast"), ReplCommand::SwitchAst);
    assert_eq!(classify(":eval"), ReplCommand::SwitchEval);
    assert_eq!(classify("1 + 2"), ReplCommand::Source);
    assert_eq!(classify(""), ReplCommand::Source);
    assert_eq!(next_mode(ReplMode::Tokens, ReplCommand::SwitchAst), ReplMode::Ast);
    assert_eq!(next_mode(ReplMode::Ast, ReplCommand::Help), ReplMode::Ast);
}

#[test]
fn literal_text_reads_back_as_its_value() {
    for (src, radix) in [("0b1_0_1 x", 2u32), ("0xC0_FFEE;", 16), ("9_876 ", 10)] {
        let (_, n) = NumLit::parse(Fragment::whole(src)).unwrap();
        let text = n.frag.text();
        let digits = if radix == 10 { text } else { &text[2..] };
        let cleaned = NumLit::clear_underscores(digits);
        let value = match radix {
            2 => NumLit::from_bin(&cleaned),
            16 => NumLit::from_hex(&cleaned),
            _ => NumLit::from_dec(&cleaned),
        };
        assert_eq!(value.unwrap(), n.inner);
    }
}
