use mexpr::expr::{
    caret, copies, minus, operate, percent, plus, slash, star, CallError, Expression,
    ExpressionError, Function, InvalidArguments, InvalidFunction, Number, Operator, Value,
};

fn fold(number: &Number) -> f64 {
    match number {
        Number::Literal(text) => text.parse().unwrap(),
        Number::Negated(inner) => -fold(inner),
        Number::Combined(operator, left, right) => {
            let (left, right) = (fold(left), fold(right));
            match operator {
                Operator::Plus => left + right,
                Operator::Minus => left - right,
                Operator::Star => left * right,
                Operator::Slash => left / right,
                Operator::Percent => left % right,
                Operator::Caret => left.powf(right),
            }
        }
        Number::Applied(name, argument) => {
            let argument = fold(argument);
            match name.as_str() {
                "sin" => argument.sin(),
                "cos" => argument.cos(),
                "sqrt" => argument.sqrt(),
                other => panic!("no function {}", other),
            }
        }
    }
}

fn literal(text: &str) -> Value {
    Value::Number(Number::Literal(text.to_string()))
}

fn native(name: &str) -> Value {
    Value::Function(Function::Native(name.to_string()))
}

fn expression(text: &str) -> Expression {
    let mut expression = match Expression::try_from(text) {
        Ok(expression) => expression,
        Err(error) => panic!("{:?} does not parse: {}", text, error.to_string()),
    };
    expression.table.insert("π".to_string(), literal("3.141592653589793"));
    expression.table.insert("sin".to_string(), native("sin"));
    expression.insert("cos".to_string(), native("cos"));
    expression.insert("sqrt".to_string(), native("sqrt"));
    expression
}

fn number(text: &str) -> f64 {
    match expression(text).eval() {
        Ok(Value::Number(number)) => fold(&number),
        other => panic!("{:?} gives {:?}", text, other),
    }
}

fn shown(text: &str) -> String {
    format!("{:?}", expression(text).eval())
}

fn arguments_of(error: ExpressionError) -> Vec<Value> {
    match error {
        ExpressionError::FunctionCallFailure(CallError::InvalidArguments(InvalidArguments(
            values,
        ))) => values,
        other => panic!("{:?}", other),
    }
}

fn folded(values: &[Value]) -> Vec<Option<f64>> {
    values
        .iter()
        .map(|value| match value {
            Value::Number(number) => Some(fold(number)),
            Value::Function(_) => None,
        })
        .collect()
}

#[test]
fn numeric_evaluation() {
    assert_eq!(number("3 + 4"), 7.0);
    assert_eq!(number("2 ^ 3 ^ 2"), 512.0);
    assert_eq!(number("10 % 3"), 1.0);
    assert_eq!(number("-3"), -3.0);
    assert_eq!(number("- -3"), 3.0);
    assert_eq!(number("+3"), 3.0);
    assert_eq!(number("7 - 10"), -3.0);
    assert_eq!(number("6 * 7"), 42.0);
    assert_eq!(number("1 / 4"), 0.25);
    assert_eq!(number("1e3 + .5"), 1000.5);
    assert_eq!(number("1. + 1.e2"), 101.0);
    assert_eq!(number("2.5E-1 * 1e+1"), 2.5);
    assert_eq!(number("007"), 7.0);
    assert_eq!(number("2 ^ -1"), 0.5);
    assert_eq!(number("-2 ^ 2"), -4.0);
    assert_eq!(number("1 / 0"), f64::INFINITY);
    assert!(number("0 / 0").is_nan());
    assert_eq!(number("-7 % 3"), -1.0);
}

#[test]
fn grouping_changes_precedence() {
    assert_eq!(number("(1 + 2) * 3"), 9.0);
    assert_eq!(number("1 + 2 * 3"), 7.0);
    assert_eq!(number("8 - 4 - 2"), 2.0);
    assert_eq!(number("8 - (4 - 2)"), 6.0);
}

#[test]
fn an_operator_is_a_value_to_call() {
    assert_eq!(number("+(3,4)"), 7.0);
    assert_eq!(number("+(3,4)"), number("3 + 4"));
    assert_eq!(number("-(3,4)"), -1.0);
    assert_eq!(number("-(3)"), -3.0);
    assert_eq!(number("*(3,4)"), 12.0);
    assert_eq!(number("/(3,4)"), 0.75);
    assert_eq!(number("%(7,4)"), 3.0);
    assert_eq!(number("^(2,10)"), 1024.0);
    assert_eq!(shown("+"), "Ok(Function(Operator(Plus)))");
    assert_eq!(shown("(^)"), "Ok(Function(Operator(Caret)))");
}

#[test]
fn what_a_sum_evaluates_to_is_the_sum_of_the_literals() {
    assert_eq!(
        shown("3 + 4"),
        "Ok(Number(Combined(Plus, Literal(\"3\"), Literal(\"4\"))))"
    );
    assert_eq!(shown("-3"), "Ok(Number(Negated(Literal(\"3\"))))");
    assert_eq!(shown("+3"), "Ok(Number(Literal(\"3\")))");
    assert_eq!(shown("sin(1)"), "Ok(Number(Applied(\"sin\", Literal(\"1\"))))");
    assert_eq!(shown("π"), "Ok(Number(Literal(\"3.141592653589793\")))");
}

#[test]
fn functions_are_lifted() {
    assert_eq!(number("(sin + sin)(0)"), 0.0);
    assert_eq!(number("(cos + cos)(0)"), 2.0);
    assert_eq!(number("(cos - sin)(0)"), 1.0);
    assert_eq!(number("(sin - cos)(0)"), -1.0);
    assert_eq!(number("(cos * cos)(π)"), 1.0);
    assert_eq!(number("(sqrt / sqrt)(2)"), 1.0);
    assert_eq!(number("(sqrt ^ sqrt)(4)"), 4.0);
    assert_eq!(number("(sqrt % cos)(9)"), 3.0 % 9f64.cos());
}

#[test]
fn lifting_keeps_the_order_of_the_operands() {
    assert_eq!(number("(cos - 3)(0)"), -2.0);
    assert_eq!(number("(3 - cos)(0)"), 2.0);
    assert_eq!(number("(sqrt / 2)(16)"), 2.0);
    assert_eq!(number("(2 / sqrt)(16)"), 0.5);
    assert_eq!(number("(sqrt ^ 3)(4)"), 8.0);
    assert_eq!(number("(3 ^ sqrt)(4)"), 9.0);
    assert_eq!(number("(sqrt % 3)(16)"), 1.0);
    assert_eq!(number("(3 % sqrt)(4)"), 1.0);
    assert_eq!(number("(2 * sqrt + 1)(9)"), 7.0);
}

#[test]
fn signs_are_lifted() {
    assert_eq!(number("(-cos)(0)"), -1.0);
    assert_eq!(number("(+cos)(0)"), 1.0);
    assert_eq!(number("(- -cos)(0)"), 1.0);
    assert_eq!(shown("-cos"), "Ok(Function(Lifted(Minus, [Function(Native(\"cos\"))])))");
}

#[test]
fn operators_are_lifted_over_operators() {
    assert_eq!(number("(+ * 2)(3, 4)"), 14.0);
    assert_eq!(number("(- ^ 2)(5, 2)"), 9.0);
    assert_eq!(number("(+ - *)(3, 4)"), -12.0);
    assert_eq!(number("(+ - (*))(3, 4)"), -12.0);
    assert_eq!(number("((+) - (*))(3, 4)"), -5.0);
    assert_eq!(number("(-*)(3, 4)"), -12.0);
    assert_eq!(number("(sqrt + (sin + cos))(0)"), 1.0);
}

#[test]
fn a_lifted_function_may_give_a_function() {
    assert_eq!(
        shown("(+ * 2)(sin)"),
        "Ok(Function(Lifted(Star, [Function(Lifted(Plus, [Function(Native(\"sin\"))])), \
         Number(Literal(\"2\"))])))"
    );
    assert_eq!(number("(+ * 2)(cos)(0)"), 2.0);
    assert_eq!(number("+ + 1"), 1.0);
}

#[test]
fn an_undefined_identifier_fails() {
    match expression("foo + 1").eval() {
        Err(ExpressionError::UndefinedIdentifier(name)) => assert_eq!(name, "foo"),
        other => panic!("{:?}", other),
    }
    match expression("1 + bar(2)").eval() {
        Err(ExpressionError::UndefinedIdentifier(name)) => assert_eq!(name, "bar"),
        other => panic!("{:?}", other),
    }
    match expression("Sin(0)").eval() {
        Err(ExpressionError::UndefinedIdentifier(name)) => assert_eq!(name, "Sin"),
        other => panic!("{:?}", other),
    }
}

#[test]
fn the_first_error_from_the_left_is_returned() {
    match expression("foo + bar").eval() {
        Err(ExpressionError::UndefinedIdentifier(name)) => assert_eq!(name, "foo"),
        other => panic!("{:?}", other),
    }
    match expression("foo(bar)").eval() {
        Err(ExpressionError::UndefinedIdentifier(name)) => assert_eq!(name, "foo"),
        other => panic!("{:?}", other),
    }
    match expression("3(foo)").eval() {
        Err(ExpressionError::UndefinedIdentifier(name)) => assert_eq!(name, "foo"),
        other => panic!("{:?}", other),
    }
    match expression("sin(3(4), foo)").eval() {
        Err(ExpressionError::FunctionCallFailure(CallError::InvalidFunction(_))) => {}
        other => panic!("{:?}", other),
    }
    match expression("+(1, 2, foo)").eval() {
        Err(ExpressionError::UndefinedIdentifier(name)) => assert_eq!(name, "foo"),
        other => panic!("{:?}", other),
    }
}

#[test]
fn a_number_is_no_function() {
    match expression("3(4)").eval() {
        Err(ExpressionError::FunctionCallFailure(CallError::InvalidFunction(InvalidFunction(
            Value::Number(number),
        )))) => assert_eq!(fold(&number), 3.0),
        other => panic!("{:?}", other),
    }
    match expression("(1 + 2)()").eval() {
        Err(ExpressionError::FunctionCallFailure(CallError::InvalidFunction(InvalidFunction(
            Value::Number(number),
        )))) => assert_eq!(fold(&number), 3.0),
        other => panic!("{:?}", other),
    }
    match expression("sin(0)(1)").eval() {
        Err(ExpressionError::FunctionCallFailure(CallError::InvalidFunction(_))) => {}
        other => panic!("{:?}", other),
    }
}

#[test]
fn operators_refuse_other_arguments() {
    let error = expression("+(1, 2, 3)").eval().unwrap_err();
    assert_eq!(folded(&arguments_of(error)), vec![Some(1.0), Some(2.0), Some(3.0)]);
    let error = expression("+()").eval().unwrap_err();
    assert_eq!(folded(&arguments_of(error)), vec![]);
    let error = expression("-()").eval().unwrap_err();
    assert_eq!(folded(&arguments_of(error)), vec![]);
    for symbol in ["*", "/", "%", "^"] {
        let error = expression(&format!("{}(2)", symbol)).eval().unwrap_err();
        assert_eq!(folded(&arguments_of(error)), vec![Some(2.0)]);
        let error = expression(&format!("{}(sin)", symbol)).eval().unwrap_err();
        assert_eq!(folded(&arguments_of(error)), vec![None]);
        let error = expression(&format!("{}()", symbol)).eval().unwrap_err();
        assert_eq!(folded(&arguments_of(error)), vec![]);
        let error = expression(&format!("{}(1, sin, 3)", symbol)).eval().unwrap_err();
        assert_eq!(folded(&arguments_of(error)), vec![Some(1.0), None, Some(3.0)]);
    }
}

#[test]
fn a_native_function_takes_one_number() {
    assert_eq!(number("sin(0)"), 0.0);
    assert_eq!(number("cos(π)"), -1.0);
    assert_eq!(number("sqrt(sqrt(16))"), 2.0);
    let error = expression("sin(1, 2)").eval().unwrap_err();
    assert_eq!(folded(&arguments_of(error)), vec![Some(1.0), Some(2.0)]);
    let error = expression("sin()").eval().unwrap_err();
    assert_eq!(folded(&arguments_of(error)), vec![]);
    let error = expression("sin(cos)").eval().unwrap_err();
    assert_eq!(folded(&arguments_of(error)), vec![None]);
}

#[test]
fn a_lifted_function_fails_as_its_first_failing_operand() {
    let error = expression("(sin + cos)(1, 2)").eval().unwrap_err();
    assert_eq!(folded(&arguments_of(error)), vec![Some(1.0), Some(2.0)]);
    let error = expression("(sin + *)(1)").eval().unwrap_err();
    assert_eq!(folded(&arguments_of(error)), vec![Some(1.0)]);
    let error = expression("(* + sin)(1, 2)").eval().unwrap_err();
    assert_eq!(folded(&arguments_of(error)), vec![Some(1.0), Some(2.0)]);
    let error = expression("(2 * sin)()").eval().unwrap_err();
    assert_eq!(folded(&arguments_of(error)), vec![]);
}

#[test]
fn evaluation_is_repeatable() {
    for text in ["3 + 4", "(sin + 1)(2)", "foo", "3(4)", "+(1, 2, 3)", "-cos", "+"] {
        let expression = expression(text);
        let first = format!("{:?}", expression.eval());
        let second = format!("{:?}", expression.eval());
        assert_eq!(first, second, "{:?}", text);
    }
}

#[test]
fn a_new_expression_has_the_six_operators() {
    let expression = match Expression::try_from("1") {
        Ok(expression) => expression,
        Err(error) => panic!("{}", error.to_string()),
    };
    assert_eq!(expression.table.len(), 6);
    for (symbol, operator) in [
        ("+", Operator::Plus),
        ("-", Operator::Minus),
        ("*", Operator::Star),
        ("/", Operator::Slash),
        ("%", Operator::Percent),
        ("^", Operator::Caret),
    ] {
        match expression.table.get(symbol) {
            Some(Value::Function(Function::Operator(found))) => assert_eq!(*found, operator),
            other => panic!("{:?}", other),
        }
    }
    assert!(expression.table.get("sin").is_none());
}

#[test]
fn a_malformed_expression_is_a_parse_error() {
    match Expression::try_from("1 + ") {
        Ok(_) => panic!("parsed"),
        Err(error) => assert_eq!(
            error.to_string(),
            "expected a token of type Number or Identifier or Plus or Minus or LeftParenthesis \
             but found EndOfFile"
        ),
    }
}

#[test]
fn a_binding_replaces_the_one_before() {
    let mut expression = expression("1 + 2");
    assert_eq!(format!("{:?}", expression.eval()), shown("1 + 2"));
    expression.insert("+".to_string(), Value::Function(Function::Operator(Operator::Star)));
    match expression.eval() {
        Ok(Value::Number(number)) => assert_eq!(fold(&number), 2.0),
        other => panic!("{:?}", other),
    }
    expression.table.insert("+".to_string(), literal("5"));
    match expression.eval() {
        Err(ExpressionError::FunctionCallFailure(CallError::InvalidFunction(InvalidFunction(
            Value::Number(number),
        )))) => assert_eq!(fold(&number), 5.0),
        other => panic!("{:?}", other),
    }
}

#[test]
fn names_are_case_sensitive() {
    let mut expression = expression("x + X");
    expression.insert("x".to_string(), literal("1"));
    match expression.eval() {
        Err(ExpressionError::UndefinedIdentifier(name)) => assert_eq!(name, "X"),
        other => panic!("{:?}", other),
    }
    expression.insert("X".to_string(), literal("2"));
    match expression.eval() {
        Ok(Value::Number(number)) => assert_eq!(fold(&number), 3.0),
        other => panic!("{:?}", other),
    }
}

#[test]
fn the_six_operators_on_two_numbers() {
    let cases: [(fn(Vec<Value>) -> Result<Value, InvalidArguments>, f64); 6] = [
        (plus, 9.0),
        (minus, 5.0),
        (star, 14.0),
        (slash, 3.5),
        (percent, 1.0),
        (caret, 49.0),
    ];
    for (operator, expected) in cases {
        match operator(vec![literal("7"), literal("2")]) {
            Ok(Value::Number(number)) => assert_eq!(fold(&number), expected),
            other => panic!("{:?}", other),
        }
    }
}

#[test]
fn the_six_operators_on_one_number() {
    match plus(vec![literal("7")]) {
        Ok(Value::Number(number)) => assert_eq!(fold(&number), 7.0),
        other => panic!("{:?}", other),
    }
    match minus(vec![literal("7")]) {
        Ok(Value::Number(number)) => assert_eq!(fold(&number), -7.0),
        other => panic!("{:?}", other),
    }
    let others: [fn(Vec<Value>) -> Result<Value, InvalidArguments>; 4] =
        [star, slash, percent, caret];
    for operator in others {
        match operator(vec![literal("7")]) {
            Err(InvalidArguments(values)) => assert_eq!(folded(&values), vec![Some(7.0)]),
            other => panic!("{:?}", other),
        }
    }
}

#[test]
fn the_six_operators_lift_over_a_function() {
    let operators = [
        Operator::Plus,
        Operator::Minus,
        Operator::Star,
        Operator::Slash,
        Operator::Percent,
        Operator::Caret,
    ];
    for operator in operators {
        for operands in [
            vec![native("sin"), native("cos")],
            vec![literal("1"), native("cos")],
            vec![native("sin"), literal("2")],
        ] {
            let expected = format!("Ok(Function(Lifted({:?}, {:?})))", operator, operands);
            assert_eq!(format!("{:?}", operate(operator, operands)), expected);
        }
    }
    assert_eq!(
        format!("{:?}", plus(vec![native("sin")])),
        "Ok(Function(Lifted(Plus, [Function(Native(\"sin\"))])))"
    );
    assert_eq!(
        format!("{:?}", minus(vec![native("sin")])),
        "Ok(Function(Lifted(Minus, [Function(Native(\"sin\"))])))"
    );
}

#[test]
fn a_function_is_called_with_arguments() {
    let double = Function::Lifted(Operator::Star, vec![literal("2"), native("sqrt")]);
    match double.call(&vec![literal("9")]) {
        Ok(Value::Number(number)) => assert_eq!(fold(&number), 6.0),
        other => panic!("{:?}", other),
    }
    match double.call(&vec![]) {
        Err(InvalidArguments(values)) => assert!(values.is_empty()),
        other => panic!("{:?}", other),
    }
    match Function::Operator(Operator::Minus).call(&vec![literal("9"), literal("10")]) {
        Ok(Value::Number(number)) => assert_eq!(fold(&number), -1.0),
        other => panic!("{:?}", other),
    }
    match Function::Native("sin".to_string()).call(&vec![native("sin")]) {
        Err(InvalidArguments(values)) => assert_eq!(folded(&values), vec![None]),
        other => panic!("{:?}", other),
    }
}

#[test]
fn copies_are_equal_to_what_they_copy() {
    let values = vec![
        literal("1"),
        native("sin"),
        Value::Function(Function::Lifted(Operator::Caret, vec![native("cos"), literal("2")])),
        Value::Number(Number::Combined(
            Operator::Slash,
            Box::new(Number::Negated(Box::new(Number::Literal("3".to_string())))),
            Box::new(Number::Applied("sqrt".to_string(), Box::new(Number::Literal("4".to_string())))),
        )),
    ];
    assert_eq!(format!("{:?}", copies(&values)), format!("{:?}", values));
    assert_eq!(format!("{:?}", values[2].clone()), format!("{:?}", values[2]));
    assert_eq!(format!("{:?}", values[3].clone()), format!("{:?}", values[3]));
}
