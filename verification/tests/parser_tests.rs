use minishell::parser::{parse_input, Call, LeftRecursiveBlock, ParserError, ShellExpr, ShellInput, Token};

fn call_parts(call: &Call) -> (String, Vec<String>) {
    (call.prog.clone(), call.arguments.clone())
}

fn strings(items: &[&str]) -> Vec<String> {
    items.iter().map(|s| s.to_string()).collect()
}

fn expect_call(expr: &ShellExpr) -> &Call {
    match expr {
        ShellExpr::Call(c) => c,
        other => panic!("expected a call, got {:?}", other),
    }
}

#[test]
fn parse_single_call_with_arguments() {
    let e = parse_input("ls -la /tmp").unwrap();
    let c = expect_call(&e);
    assert_eq!(call_parts(c), ("ls".to_string(), strings(&["-la", "/tmp"])));
}

#[test]
fn parse_pipes_group_from_the_left() {
    let e = parse_input("a | b x | c").unwrap();
    match e {
        ShellExpr::Pipe(outer) => {
            assert_eq!(call_parts(&outer.0.right), ("c".to_string(), vec![]));
            match *outer.0.left {
                ShellExpr::Pipe(inner) => {
                    assert_eq!(call_parts(&inner.0.right), ("b".to_string(), strings(&["x"])));
                    assert_eq!(call_parts(expect_call(&inner.0.left)), ("a".to_string(), vec![]));
                }
                other => panic!("expected a pipe, got {:?}", other),
            }
        }
        other => panic!("expected a pipe, got {:?}", other),
    }
}

#[test]
fn parse_redirect_of_a_pipe() {
    let e = parse_input("cat notes | sort > sorted.txt").unwrap();
    match e {
        ShellExpr::Redirect(r) => {
            assert_eq!(call_parts(&r.0.right), ("sorted.txt".to_string(), vec![]));
            match *r.0.left {
                ShellExpr::Pipe(p) => {
                    assert_eq!(call_parts(&p.0.right), ("sort".to_string(), vec![]));
                    assert_eq!(call_parts(expect_call(&p.0.left)), ("cat".to_string(), strings(&["notes"])));
                }
                other => panic!("expected a pipe, got {:?}", other),
            }
        }
        other => panic!("expected a redirect, got {:?}", other),
    }
}

#[test]
fn parse_operators_need_no_spaces() {
    let e = parse_input("a|b>c").unwrap();
    match e {
        ShellExpr::Redirect(r) => {
            assert_eq!(r.0.right.prog, "c");
            assert!(matches!(*r.0.left, ShellExpr::Pipe(_)));
        }
        other => panic!("expected a redirect, got {:?}", other),
    }
}

#[test]
fn parse_ignores_surrounding_white_space_and_line_ending() {
    let e = parse_input("  echo   hello \n").unwrap();
    let c = expect_call(&e);
    assert_eq!(call_parts(c), ("echo".to_string(), strings(&["hello"])));
}

#[test]
fn parse_unicode_white_space_separates_words() {
    let e = parse_input("ls\u{3000}-a\u{a0}b").unwrap();
    let c = expect_call(&e);
    assert_eq!(call_parts(c), ("ls".to_string(), strings(&["-a", "b"])));
}

#[test]
fn parse_keeps_non_ascii_words() {
    let e = parse_input("grüß dich").unwrap();
    let c = expect_call(&e);
    assert_eq!(call_parts(c), ("grüß".to_string(), strings(&["dich"])));
}

#[test]
fn parse_blank_lines_hold_no_expression() {
    assert!(matches!(parse_input(""), Err(ParserError::CouldNotParse)));
    assert!(matches!(parse_input("   \n"), Err(ParserError::CouldNotParse)));
}

#[test]
fn parse_misplaced_operators_break_the_grammar() {
    assert!(matches!(parse_input("| ls"), Err(ParserError::PestParseError)));
    assert!(matches!(parse_input("ls |"), Err(ParserError::PestParseError)));
    assert!(matches!(parse_input("ls || wc"), Err(ParserError::PestParseError)));
    assert!(matches!(parse_input("ls > | f"), Err(ParserError::PestParseError)));
    assert!(matches!(parse_input(">"), Err(ParserError::PestParseError)));
}

#[test]
fn tokens_split_words_and_operators() {
    let toks = ShellInput::tokens("echo hi>f |x");
    let shown: Vec<String> = toks
        .iter()
        .map(|t| match t {
            Token::Word(w) => format!("W({})", w),
            Token::Pipe => "|".to_string(),
            Token::Redirect => ">".to_string(),
        })
        .collect();
    assert_eq!(shown, strings(&["W(echo)", "W(hi)", ">", "W(f)", "|", "W(x)"]));
}

#[test]
fn tokens_of_blank_text_are_empty() {
    assert!(ShellInput::tokens(" \t\r\n").is_empty());
}

#[test]
fn from_shell_expr_keeps_both_sides() {
    let right = Call { prog: "wc".to_string(), arguments: vec!["-l".to_string()] };
    let left = ShellExpr::Call(Call { prog: "ls".to_string(), arguments: vec![] });
    let block = LeftRecursiveBlock::from_shell_expr(right, Some(left));
    assert_eq!(call_parts(&block.right), ("wc".to_string(), strings(&["-l"])));
    assert_eq!(expect_call(&block.left).prog, "ls");
}

#[test]
fn one_call_more_than_operators_on_an_example() {
    fn calls(e: &ShellExpr) -> usize {
        match e {
            ShellExpr::Call(_) => 1,
            ShellExpr::Pipe(p) => calls(&p.0.left) + 1,
            ShellExpr::Redirect(r) => calls(&r.0.left) + 1,
        }
    }
    let e = parse_input("a | b > c | d > e").unwrap();
    assert_eq!(calls(&e), 5);
}
