use questlang::error_handler::error_handler::{ErrorHandler, ErrorType};
use questlang::lexer::lexer::Lexer;
use questlang::lexer::token::Token;
use questlang::parser::ast::{BinOp, Command, Expr, MoveCommand, Stmt};
use questlang::parser::parser::Parser;
use questlang::parser::utils::offset_to_line_col;
use questlang::pretty_print::PrettyPrinter;
use questlang::symbol_table::symbol_table::SymbolTable;
use questlang::symbol_table::symbol_type::SymbolType;
use questlang::text::{i32_to_string, parse_i32, str_eq, u64_to_string, usize_to_string};

fn parse_source(source: &str) -> (Vec<Stmt>, ErrorHandler) {
    let mut lexer = Lexer::new(source);
    let tokens = lexer.tokenize();
    Parser::new(tokens, source).parse()
}

#[test]
fn test_tokenize_empty_input_yields_no_tokens() {
    let mut lexer = Lexer::new("");
    assert!(lexer.tokenize().is_empty());
}

#[test]
fn test_lexemes_cover_input_concretely() {
    // The concatenation of the lexemes equals the input with whitespace
    // and comments removed.
    let input = "move_up  hero+10 // trailing words\n}";
    let mut lexer = Lexer::new(input);
    let lexemes: String =
        lexer.tokenize().into_iter().map(|(_, text, _)| text).collect::<Vec<_>>().concat();
    assert_eq!(lexemes, "move_uphero+10\n}");
}

#[test]
fn test_digit_run_then_letter_is_one_error_token() {
    let mut lexer = Lexer::new("123abc");
    let tokens = lexer.tokenize();
    assert_eq!(tokens.len(), 1);
    assert_eq!(tokens[0].0, Token::Error);
    assert_eq!(tokens[0].1, "123abc");
    assert_eq!(tokens[0].2, 0);
}

#[test]
fn test_token_offsets_are_increasing() {
    let mut lexer = Lexer::new("a + b // c\nmove_up");
    let tokens = lexer.tokenize();
    let offsets: Vec<usize> = tokens.iter().map(|t| t.2).collect();
    assert_eq!(offsets, vec![0, 2, 4, 10, 11]);
}

#[test]
fn test_unmatched_run_is_one_error_token() {
    let mut lexer = Lexer::new("@#~ hero");
    let tokens = lexer.tokenize();
    assert_eq!(tokens.len(), 2);
    assert_eq!(tokens[0].0, Token::Error);
    assert_eq!(tokens[0].1, "@#~");
    assert_eq!(tokens[1].0, Token::Identifier);
}

#[test]
fn test_missing_paren_reports_syntactic_error() {
    let source = "if (hero { move_left } else { move_right }";
    let (_ast, errors) = parse_source(source);
    assert!(errors.has_errors());
    let report = errors.report();
    assert!(report.contains("Expected ')' after if condition"));
}

#[test]
fn test_left_associative_additive_chain() {
    let source = "hero + 10 - 5";
    let (ast, errors) = parse_source(source);
    assert!(!errors.has_errors());
    assert_eq!(ast.len(), 1);
    let expected = Stmt::ExprStmt(Expr::BinaryOp {
        left: Box::new(Expr::BinaryOp {
            left: Box::new(Expr::Identifier("hero".to_string())),
            op: BinOp::Add,
            right: Box::new(Expr::Number(10)),
        }),
        op: BinOp::Sub,
        right: Box::new(Expr::Number(5)),
    });
    assert_eq!(ast[0], expected);
}

#[test]
fn test_command_parses_with_zero_diagnostics() {
    let (ast, errors) = parse_source("move_up");
    assert!(!errors.has_errors());
    assert_eq!(ast, vec![Stmt::Command(Command::Move(MoveCommand::MoveUp))]);
}

#[test]
fn test_print_then_reparse_control_structure_fragment() {
    // Round trip on the fragment whose printed form is itself valid
    // syntax: control structures with identifier conditions and empty or
    // nested bodies. (Printed commands and expression statements carry
    // `Command:`/`Expr:` markers and do not re-parse.)
    let source = "if (hero) { while (enemy) { } } else { }";
    let (ast, errors) = parse_source(source);
    assert!(!errors.has_errors());
    let mut printer = PrettyPrinter::new();
    let printed = printer.print_stmts(&ast);
    let (ast2, errors2) = parse_source(&printed);
    assert!(!errors2.has_errors());
    assert_eq!(ast, ast2);
}

#[test]
fn test_number_overflow_yields_zero_and_diagnostic() {
    let (ast, errors) = parse_source("9999999999");
    assert!(errors.has_errors());
    assert_eq!(ast, vec![Stmt::ExprStmt(Expr::Number(0))]);
    let report = errors.report();
    assert!(report.contains("Invalid number literal"));
}

#[test]
fn test_largest_i32_literal_parses() {
    let (ast, errors) = parse_source("2147483647");
    assert!(!errors.has_errors());
    assert_eq!(ast, vec![Stmt::ExprStmt(Expr::Number(2147483647))]);
}

#[test]
fn test_adversarial_input_terminates_with_errors() {
    let source = ") } else ; { ( if while for && || ! @@@ 12ab {";
    let (_ast, errors) = parse_source(source);
    assert!(errors.has_errors());
}

#[test]
fn test_missing_closing_brace_is_reported() {
    let source = "while (enemy) { jump";
    let (ast, errors) = parse_source(source);
    assert!(errors.has_errors());
    let report = errors.report();
    assert!(report.contains("Expected '}' to close block"));
    assert_eq!(ast.len(), 1);
}

#[test]
fn test_missing_else_is_reported() {
    let source = "if (hero) { move_left }";
    let (_ast, errors) = parse_source(source);
    assert!(errors.has_errors());
    let report = errors.report();
    assert!(report.contains("Expected 'else' after if block"));
}

#[test]
fn test_report_renders_errors_then_warnings() {
    let mut handler = ErrorHandler::new();
    handler.add_error(ErrorType::Lexical, "unexpected glyph", 1, 2);
    handler.add_warning("unused name", 3, 4);
    let report = handler.report();
    let expected = "Erros encontrados:\n[Lexical Error] unexpected glyph (Linha 1, Coluna 2)\n\
                    Warnings:\n[Semantic Error] unused name (Linha 3, Coluna 4)\n";
    assert_eq!(report, expected);
}

#[test]
fn test_report_without_errors() {
    let handler = ErrorHandler::new();
    assert_eq!(handler.report(), "Nenhum erro encontrado.\n");
}

#[test]
fn test_offset_to_line_col_counts_newlines() {
    let source = "ab\ncd\ne";
    assert_eq!(offset_to_line_col(source, 0), (1, 1));
    assert_eq!(offset_to_line_col(source, 1), (1, 2));
    assert_eq!(offset_to_line_col(source, 3), (2, 1));
    assert_eq!(offset_to_line_col(source, 6), (3, 1));
    assert_eq!(offset_to_line_col(source, 99), (3, 2));
}

#[test]
fn test_number_rendering() {
    assert_eq!(u64_to_string(0), "0");
    assert_eq!(u64_to_string(907), "907");
    assert_eq!(usize_to_string(18446744073709551615), "18446744073709551615");
    assert_eq!(i32_to_string(-45), "-45");
    assert_eq!(i32_to_string(i32::MIN), "-2147483648");
    assert_eq!(i32_to_string(i32::MAX), "2147483647");
}

#[test]
fn test_parse_i32_accepts_signs_and_rejects_junk() {
    assert_eq!(parse_i32("42"), Some(42));
    assert_eq!(parse_i32("+7"), Some(7));
    assert_eq!(parse_i32("-2147483648"), Some(i32::MIN));
    assert_eq!(parse_i32("2147483648"), None);
    assert_eq!(parse_i32(""), None);
    assert_eq!(parse_i32("-"), None);
    assert_eq!(parse_i32("12a"), None);
}

#[test]
fn test_str_eq_is_character_exact() {
    assert!(str_eq("hero", "hero"));
    assert!(!str_eq("hero", "Hero"));
    assert!(!str_eq("hero", "her"));
    assert!(str_eq("", ""));
}

#[test]
fn test_duplicate_symbol_insert_signals_warning() {
    let mut table = SymbolTable::new();
    assert!(table.insert("hero", SymbolType::Integer, 1, 1));
    assert!(!table.insert("hero", SymbolType::Boolean, 2, 9));
    let hero = table.lookup("hero").unwrap();
    assert_eq!(hero.line, 1);
    assert_eq!(hero.column, 1);
}

#[test]
fn test_symbol_table_rendering() {
    let mut table = SymbolTable::new();
    table.insert("hero", SymbolType::Integer, 1, 1);
    let rendered = table.print_table();
    assert_eq!(
        rendered,
        "Tabela de Simbolos:\n  - hero : Integer (Escopo: 0, Linha: 1, Coluna: 1)\n"
    );
}

#[test]
fn test_parse_stmt_consumes_one_statement() {
    let source = "jump move_down";
    let mut lexer = Lexer::new(source);
    let tokens = lexer.tokenize();
    let mut parser = Parser::new(tokens, source);
    let first = parser.parse_stmt();
    assert!(matches!(first, Some(Stmt::Command(_))));
    let second = parser.parse_stmt();
    assert!(matches!(second, Some(Stmt::Command(Command::Move(MoveCommand::MoveDown)))));
    assert!(parser.is_at_end());
}
