//! Condition expressions: their tokens, their parts and what they say.
use std::sync::Arc;

use event_rule::condition::ConditionCompiler;
use event_rule::event::Value;
use event_rule::selection::{AndSelectionNode, OrSelectionNode, SelectionNode};
use event_rule::table::TextTable;
use event_rule::token::ConditionToken;

/// `yes` always holds and `no` never does.
fn names() -> TextTable<Arc<SelectionNode>> {
    let mut names = TextTable::new();
    let yes = SelectionNode::And(AndSelectionNode::new());
    let no = SelectionNode::Or(OrSelectionNode::new());
    names.insert("yes".to_string(), Arc::new(yes));
    names.insert("no".to_string(), Arc::new(no));
    names
}

fn holds(text: &str) -> bool {
    let node = ConditionCompiler::new()
        .compile_condition(text.to_string(), &names())
        .unwrap();
    node.select(&Value::Null, &TextTable::new())
}

fn error(text: &str) -> String {
    ConditionCompiler::new()
        .compile_condition(text.to_string(), &names())
        .unwrap_err()
}

fn word(name: &str) -> ConditionToken {
    ConditionToken::SelectionReference(name.to_string())
}

fn shown(token: &ConditionToken) -> String {
    format!("{:?}", token)
}

#[test]
fn names_say_what_they_stand_for() {
    assert_eq!(holds("yes"), true);
    assert_eq!(holds("no"), false);
    assert_eq!(holds("  yes "), true);
}

#[test]
fn disjunction_needs_one() {
    assert_eq!(holds("yes or yes"), true);
    assert_eq!(holds("yes or no"), true);
    assert_eq!(holds("no or yes"), true);
    assert_eq!(holds("no or no"), false);
    assert_eq!(holds("no or no or yes"), true);
}

#[test]
fn conjunction_needs_both() {
    assert_eq!(holds("yes and yes"), true);
    assert_eq!(holds("yes and no"), false);
    assert_eq!(holds("no and yes"), false);
    assert_eq!(holds("no and no"), false);
    assert_eq!(holds("yes and yes and no"), false);
    assert_eq!(holds("(yes or no) and (no or yes)"), true);
}

#[test]
fn negation_says_the_opposite() {
    assert_eq!(holds("not yes"), false);
    assert_eq!(holds("not no"), true);
    assert_eq!(holds("not (yes and no)"), true);
    assert_eq!(holds("not(not(yes))"), true);
}

#[test]
fn conjunction_binds_more_tightly() {
    assert_eq!(holds("yes or no and no"), true);
    assert_eq!(holds("(yes or no) and no"), false);
    assert_eq!(holds("no and no or yes"), true);
    assert_eq!(holds("yes or not yes and no"), true);
}

#[test]
fn parentheses_keep_what_stands_in_them() {
    assert_eq!(holds("(yes)"), true);
    assert_eq!(holds("((no))"), false);
    assert_eq!(holds("( ( yes ) or ( no ) )"), true);
}

#[test]
fn aggregation_part_is_passed_over() {
    assert_eq!(holds("yes | count() > 3"), true);
    assert_eq!(holds("no|count() > 3"), false);
    assert_eq!(holds("yes |"), true);
}

#[test]
fn wrong_expressions_are_reported() {
    let head = "condition parse error has occured. ";
    let cases = [
        ("other", "other is not defined."),
        ("yes and other", "other is not defined."),
        ("", "unknown error."),
        ("|count() > 3", "unknown error."),
        ("yes or ()", "unknown error."),
        ("yes-no", "An unusable character was found."),
        ("(yes", "expected ')'. but not found."),
        ("yes)", "expected '('. but not found."),
        ("or yes", "illegal Logical Operator(and, or) was found."),
        ("yes and", "illegal Logical Operator(and, or) was found."),
        ("yes or or no", "The use of logical operator(and, or) was wrong."),
        ("yes or not", "illegal not was found."),
        ("not not", "not is continuous."),
        (
            "yes no",
            "unknown error. maybe it's because there are multiple name of selection node.",
        ),
        (
            "not yes no",
            "unknown error. maybe it's because there are multiple name of selection node.",
        ),
        (
            "yes not",
            "unknown error. maybe it's because there are multiple name of selection node.",
        ),
    ];
    for (text, message) in cases {
        assert_eq!(error(text), format!("{}{}", head, message), "{}", text);
    }
}

#[test]
fn expression_without_pipe_keeps_bare_message() {
    let result = ConditionCompiler::new().compile_condition_body("other".to_string(), &names());
    assert_eq!(result.unwrap_err(), "other is not defined.");
}

#[test]
fn tokens_of_an_expression() {
    let compiler = ConditionCompiler::new();
    let tokens = compiler
        .tokenize(&"not (a1 and  b_2)or c".to_string())
        .unwrap();
    let expected = [
        ConditionToken::Not,
        ConditionToken::LeftParenthesis,
        word("a1"),
        ConditionToken::And,
        word("b_2"),
        ConditionToken::RightParenthesis,
        ConditionToken::Or,
        word("c"),
    ];
    assert_eq!(tokens.len(), expected.len());
    for (token, expected) in tokens.iter().zip(expected.iter()) {
        assert_eq!(shown(token), shown(expected));
    }
    // Words that only start like an operator are names.
    let tokens = compiler.tokenize(&"android order nothing".to_string()).unwrap();
    assert_eq!(shown(&tokens[0]), shown(&word("android")));
    assert_eq!(shown(&tokens[1]), shown(&word("order")));
    assert_eq!(shown(&tokens[2]), shown(&word("nothing")));
    // Word characters beyond ASCII.
    let tokens = compiler.tokenize(&"選択1 or é".to_string()).unwrap();
    assert_eq!(shown(&tokens[0]), shown(&word("選択1")));
    assert_eq!(shown(&tokens[2]), shown(&word("é")));
    assert_eq!(
        compiler.tokenize(&"a・b\t".to_string()).unwrap_err(),
        "An unusable character was found."
    );
}

#[test]
fn lexemes_and_their_tokens() {
    let compiler = ConditionCompiler::new();
    let cases = [
        ("(", ConditionToken::LeftParenthesis),
        (")", ConditionToken::RightParenthesis),
        (" ", ConditionToken::Space),
        ("not", ConditionToken::Not),
        ("and", ConditionToken::And),
        ("or", ConditionToken::Or),
        ("And", word("And")),
    ];
    for (text, token) in cases {
        assert_eq!(shown(&compiler.to_enum(text.to_string())), shown(&token));
    }
    assert_eq!(compiler.is_logical(&ConditionToken::And), true);
    assert_eq!(compiler.is_logical(&ConditionToken::Or), true);
    assert_eq!(compiler.is_logical(&ConditionToken::Not), false);
}

#[test]
fn outermost_parentheses_are_wrapped() {
    let compiler = ConditionCompiler::new();
    let tokens = compiler.tokenize(&"a and (b or (c))".to_string()).unwrap();
    let wrapped = compiler.parse_parenthesis(tokens).unwrap();
    assert_eq!(wrapped.len(), 3);
    assert_eq!(shown(&wrapped[0]), shown(&word("a")));
    assert_eq!(
        shown(&wrapped[2]),
        shown(&ConditionToken::ParenthesisContainer(vec![
            word("b"),
            ConditionToken::Or,
            ConditionToken::LeftParenthesis,
            word("c"),
            ConditionToken::RightParenthesis,
        ]))
    );
}

#[test]
fn operands_are_grouped() {
    let compiler = ConditionCompiler::new();
    let tokens = compiler.tokenize(&"not a and b or".to_string()).unwrap();
    let grouped = compiler.to_operand_container(tokens).unwrap();
    let expected = [
        ConditionToken::OperandContainer(vec![ConditionToken::Not, word("a")]),
        ConditionToken::And,
        ConditionToken::OperandContainer(vec![word("b")]),
        ConditionToken::Or,
    ];
    assert_eq!(grouped.len(), expected.len());
    for (token, expected) in grouped.iter().zip(expected.iter()) {
        assert_eq!(shown(token), shown(expected));
    }
}

#[test]
fn operators_are_parsed() {
    let compiler = ConditionCompiler::new();
    let operand = |name: &str| ConditionToken::OperandContainer(vec![word(name)]);
    let tokens = compiler.tokenize(&"a and b and c or d".to_string()).unwrap();
    let token = compiler.parse_and_or_operator(tokens).unwrap();
    let expected = ConditionToken::OrContainer(vec![
        ConditionToken::AndContainer(vec![
            ConditionToken::AndContainer(vec![operand("a"), operand("b")]),
            operand("c"),
        ]),
        operand("d"),
    ]);
    assert_eq!(shown(&token), shown(&expected));
    let resolved = compiler.parse_operand_container(token).unwrap();
    let expected = ConditionToken::OrContainer(vec![
        ConditionToken::AndContainer(vec![
            ConditionToken::AndContainer(vec![word("a"), word("b")]),
            word("c"),
        ]),
        word("d"),
    ]);
    assert_eq!(shown(&resolved), shown(&expected));
    assert_eq!(
        compiler.parse_and_or_operator(vec![]).unwrap_err(),
        "unknown error."
    );
    assert_eq!(
        compiler
            .parse_operand_container(ConditionToken::OperandContainer(vec![]))
            .unwrap_err(),
        "unknown error."
    );
}

#[test]
fn parentheses_are_parsed_in_their_turn() {
    let compiler = ConditionCompiler::new();
    let inner = ConditionToken::ParenthesisContainer(vec![word("a"), ConditionToken::Or, word("b")]);
    let token = compiler
        .parse_rest_parenthesis(ConditionToken::NotContainer(vec![inner]))
        .unwrap();
    let expected =
        ConditionToken::NotContainer(vec![ConditionToken::OrContainer(vec![word("a"), word("b")])]);
    assert_eq!(shown(&token), shown(&expected));
    let tokens = compiler.tokenize(&"not (a)".to_string()).unwrap();
    let token = compiler.parse(tokens).unwrap();
    let expected = ConditionToken::OrContainer(vec![ConditionToken::NotContainer(vec![
        ConditionToken::OrContainer(vec![word("a")]),
    ])]);
    assert_eq!(shown(&token), shown(&expected));
}

#[test]
fn parsed_expressions_become_conditions() {
    let compiler = ConditionCompiler::new();
    let node = compiler.to_selectnode(word("yes"), &names()).unwrap();
    assert_eq!(matches!(node, SelectionNode::Ref(_)), true);
    let both = ConditionToken::AndContainer(vec![word("yes"), word("no")]);
    let node = compiler.to_selectnode(both, &names()).unwrap();
    assert_eq!(node.get_childs().len(), 2);
    assert_eq!(node.get_descendants().len(), 4);
    let two = ConditionToken::NotContainer(vec![word("yes"), word("no")]);
    assert_eq!(
        compiler.to_selectnode(two, &names()).unwrap_err(),
        "unknown error"
    );
    assert_eq!(
        compiler
            .to_selectnode(ConditionToken::Space, &names())
            .unwrap_err(),
        "unknown error"
    );
}

#[test]
fn containers_give_their_tokens() {
    let tokens = || vec![word("a"), ConditionToken::And];
    let containers = [
        ConditionToken::ParenthesisContainer(tokens()),
        ConditionToken::AndContainer(tokens()),
        ConditionToken::OrContainer(tokens()),
        ConditionToken::NotContainer(tokens()),
        ConditionToken::OperandContainer(tokens()),
    ];
    for container in containers {
        assert_eq!(container.sub_tokens().len(), 2);
        let is_parenthesis = matches!(container, ConditionToken::ParenthesisContainer(_));
        assert_eq!(
            container.sub_tokens_without_parenthesis().len(),
            if is_parenthesis { 0 } else { 2 }
        );
        let replaced = container.replace_subtoken(vec![word("b")]);
        assert_eq!(shown(&replaced.sub_tokens()[0]), shown(&word("b")));
        let back = replaced.replace_subtoken(container.sub_tokens());
        assert_eq!(shown(&back), shown(&container));
        assert_eq!(container.into_iter().count(), 2);
    }
    let name = word("a");
    assert_eq!(name.sub_tokens().len(), 0);
    assert_eq!(shown(&name.replace_subtoken(vec![word("b")])), shown(&name));
    assert_eq!(name.into_iter().count(), 0);
}
