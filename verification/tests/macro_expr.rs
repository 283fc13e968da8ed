use easymill::macro_expr::{shunting_yard, tokenize_expression, MacroToken};

fn chars(s: &str) -> Vec<char> {
    s.chars().collect()
}

fn value(s: &str) -> MacroToken {
    MacroToken::Value(chars(s))
}

#[test]
fn tokenizes_variables_operators_and_numbers() {
    let tokens = tokenize_expression(&chars("$1*($2+$3)/2.5"));
    assert_eq!(
        tokens,
        vec![
            MacroToken::Variable(1),
            MacroToken::Op('x'),
            MacroToken::Open,
            MacroToken::Variable(2),
            MacroToken::Op('+'),
            MacroToken::Variable(3),
            MacroToken::Close,
            MacroToken::Op('/'),
            value("2.5"),
        ]
    );
}

#[test]
fn tokenizer_skips_unknown_characters() {
    let tokens = tokenize_expression(&chars(" 3 x $12 - .5 "));
    assert_eq!(
        tokens,
        vec![value("3"), MacroToken::Op('x'), MacroToken::Variable(12), MacroToken::Op('-'), value(".5")]
    );
}

#[test]
fn dollar_without_digits_is_variable_zero() {
    assert_eq!(tokenize_expression(&chars("$+")), vec![MacroToken::Variable(0), MacroToken::Op('+')]);
    assert_eq!(tokenize_expression(&chars("$99999999999")), vec![MacroToken::Variable(0)]);
}

#[test]
fn shunting_yard_orders_by_precedence_and_parentheses() {
    let rpn = shunting_yard(&tokenize_expression(&chars("$1*($2+$3)/2")));
    assert_eq!(
        rpn,
        vec![
            MacroToken::Variable(1),
            MacroToken::Variable(2),
            MacroToken::Variable(3),
            MacroToken::Op('+'),
            MacroToken::Op('x'),
            value("2"),
            MacroToken::Op('/'),
        ]
    );
}

#[test]
fn shunting_yard_is_left_associative() {
    let rpn = shunting_yard(&tokenize_expression(&chars("1-2+3x4")));
    assert_eq!(
        rpn,
        vec![
            value("1"),
            value("2"),
            MacroToken::Op('-'),
            value("3"),
            value("4"),
            MacroToken::Op('x'),
            MacroToken::Op('+'),
        ]
    );
}

#[test]
fn shunting_yard_drops_unbalanced_parentheses() {
    let rpn = shunting_yard(&tokenize_expression(&chars("(($1+2")));
    assert_eq!(rpn, vec![MacroToken::Variable(1), value("2"), MacroToken::Op('+')]);
    let rpn = shunting_yard(&tokenize_expression(&chars("$1)+2")));
    assert_eq!(rpn, vec![MacroToken::Variable(1), value("2"), MacroToken::Op('+')]);
}
