//! Values, the six operators lifted over them, and the evaluation of a
//! syntax tree against a table of named values.
//!
//! A value is a number or a function. The library never computes with
//! floating point: a number is held as the arithmetic that yields it, and
//! a function as what it is made of. Which operation meets which operands,
//! and every error, is decided here; the arithmetic is left to the caller.

use vstd::prelude::*;
use vstd::string::*;
use vstd::hash_map::StringHashMap;
use crate::token::tokens_from;
use crate::parse::{
    ErrorView, ParseError, ParseTree, Parser, TreeView, lemma_call_view, line, tree_views,
};

verus! {

/// The six operators that every table starts with.
#[derive(Debug, Clone, Copy, PartialEq, Eq, Structural)]
pub enum Operator {
    Plus,
    Minus,
    Star,
    Slash,
    Percent,
    Caret,
}

/// A number, as the arithmetic that yields it.
#[derive(Debug)]
pub enum Number {
    /// A number as it is written.
    Literal(String),
    /// The negation of a number.
    Negated(Box<Number>),
    /// An operator on two numbers, the left one first.
    Combined(Operator, Box<Number>, Box<Number>),
    /// What the caller's function of this name makes of a number.
    Applied(String, Box<Number>),
}

/// A function.
#[derive(Debug)]
pub enum Function {
    /// One of the six operators.
    Operator(Operator),
    /// A function of one number that the caller has under this name.
    Native(String),
    /// An operator over one or two operands of which at least one is a
    /// function: such operands are applied to the arguments of the call,
    /// the others stand as they are, and the operator joins the results.
    Lifted(Operator, Vec<Value>),
}

/// What an expression evaluates to.
#[derive(Debug)]
pub enum Value {
    Number(Number),
    Function(Function),
}

/// A number as contracts speak of it.
pub enum NumberView {
    Literal(Seq<char>),
    Negated(Box<NumberView>),
    Combined(Operator, Box<NumberView>, Box<NumberView>),
    Applied(Seq<char>, Box<NumberView>),
}

/// A function as contracts speak of it.
pub enum FunctionView {
    Operator(Operator),
    Native(Seq<char>),
    Lifted(Operator, Seq<ValueView>),
}

/// A value as contracts speak of it.
pub enum ValueView {
    Number(NumberView),
    Function(FunctionView),
}

/// The number that `number` stands for.
pub open spec fn number_view(number: Number) -> NumberView
    decreases number,
{
    match number {
        Number::Literal(text) => NumberView::Literal(text@),
        Number::Negated(inner) => NumberView::Negated(Box::new(number_view(*inner))),
        Number::Combined(operator, left, right) => NumberView::Combined(
            operator,
            Box::new(number_view(*left)),
            Box::new(number_view(*right)),
        ),
        Number::Applied(name, argument) => NumberView::Applied(
            name@,
            Box::new(number_view(*argument)),
        ),
    }
}

/// The value that `value` stands for.
pub open spec fn value_view(value: Value) -> ValueView
    decreases value,
{
    match value {
        Value::Number(number) => ValueView::Number(number_view(number)),
        Value::Function(function) => ValueView::Function(function_view(function)),
    }
}

/// The function that `function` stands for.
pub open spec fn function_view(function: Function) -> FunctionView
    decreases function,
{
    match function {
        Function::Operator(operator) => FunctionView::Operator(operator),
        Function::Native(name) => FunctionView::Native(name@),
        Function::Lifted(operator, operands) => FunctionView::Lifted(
            operator,
            Seq::new(
                operands@.len(),
                |i: int|
                    if 0 <= i < operands@.len() {
                        value_view(operands@[i])
                    } else {
                        arbitrary()
                    },
            ),
        ),
    }
}

/// The values that `values` stand for.
pub open spec fn value_views(values: Seq<Value>) -> Seq<ValueView> {
    Seq::new(values.len(), |i: int| value_view(values[i]))
}

impl View for Number {
    type V = NumberView;

    open spec fn view(&self) -> NumberView {
        number_view(*self)
    }
}

impl View for Function {
    type V = FunctionView;

    open spec fn view(&self) -> FunctionView {
        function_view(*self)
    }
}

impl View for Value {
    type V = ValueView;

    open spec fn view(&self) -> ValueView {
        value_view(*self)
    }
}

/// The view of a lifted operator holds the views of its operands.
pub proof fn lemma_lifted_view(operator: Operator, operands: Vec<Value>)
    ensures
        Function::Lifted(operator, operands)@ == FunctionView::Lifted(
            operator,
            value_views(operands@),
        ),
{
    let function = Function::Lifted(operator, operands);
    assert(function_view(function)->Lifted_1 =~= value_views(operands@));
}

/// The error that a number was called as if it were a function.
#[derive(Debug)]
pub struct InvalidFunction(pub Value);

/// The error that a function does not take the arguments it was given.
#[derive(Debug)]
pub struct InvalidArguments(pub Vec<Value>);

impl View for InvalidFunction {
    type V = ValueView;

    open spec fn view(&self) -> ValueView {
        self.0@
    }
}

impl View for InvalidArguments {
    type V = Seq<ValueView>;

    open spec fn view(&self) -> Seq<ValueView> {
        value_views(self.0@)
    }
}

/// What an operator makes of its arguments. Two numbers are joined, and
/// so is one number by `+` and `-`; where a function stands among one or
/// two arguments (one only for `+` and `-`), the operator is lifted over
/// them. Any other arguments are the error.
pub open spec fn lifted(operator: Operator, arguments: Seq<ValueView>) -> Result<
    ValueView,
    Seq<ValueView>,
> {
    if arguments.len() == 2 {
        match (arguments[0], arguments[1]) {
            (ValueView::Number(left), ValueView::Number(right)) => Ok(
                ValueView::Number(NumberView::Combined(operator, Box::new(left), Box::new(right))),
            ),
            _ => Ok(ValueView::Function(FunctionView::Lifted(operator, arguments))),
        }
    } else if arguments.len() == 1 && (operator == Operator::Plus || operator == Operator::Minus) {
        match arguments[0] {
            ValueView::Number(number) => Ok(
                ValueView::Number(
                    if operator == Operator::Minus {
                        NumberView::Negated(Box::new(number))
                    } else {
                        number
                    },
                ),
            ),
            _ => Ok(ValueView::Function(FunctionView::Lifted(operator, arguments))),
        }
    } else {
        Err(arguments)
    }
}

/// What a function makes of its arguments.
pub open spec fn applied(function: FunctionView, arguments: Seq<ValueView>) -> Result<
    ValueView,
    Seq<ValueView>,
>
    decreases function,
{
    match function {
        FunctionView::Operator(operator) => lifted(operator, arguments),
        FunctionView::Native(name) => if arguments.len() == 1 && arguments[0] is Number {
            Ok(ValueView::Number(NumberView::Applied(name, Box::new(arguments[0]->Number_0))))
        } else {
            Err(arguments)
        },
        FunctionView::Lifted(operator, operands) => match resolved(operands, arguments) {
            Ok(values) => lifted(operator, values),
            Err(error) => Err(error),
        },
    }
}

/// What the operands of a lifted operator come to when it is called: from
/// the left, each function among them is applied to the arguments, and
/// the first error ends it.
pub open spec fn resolved(operands: Seq<ValueView>, arguments: Seq<ValueView>) -> Result<
    Seq<ValueView>,
    Seq<ValueView>,
>
    decreases operands,
{
    if operands.len() == 0 {
        Ok(Seq::empty())
    } else {
        match resolved(operands.drop_last(), arguments) {
            Ok(values) => match operands.last() {
                ValueView::Function(function) => match applied(function, arguments) {
                    Ok(value) => Ok(values.push(value)),
                    Err(error) => Err(error),
                },
                number => Ok(values.push(number)),
            },
            Err(error) => Err(error),
        }
    }
}


impl Clone for Number {
    fn clone(&self) -> (copy: Self)
        ensures
            copy@ == self@,
        decreases self,
    {
        match self {
            Number::Literal(text) => Number::Literal(text.clone()),
            Number::Negated(inner) => Number::Negated(Box::new((**inner).clone())),
            Number::Combined(operator, left, right) => Number::Combined(
                *operator,
                Box::new((**left).clone()),
                Box::new((**right).clone()),
            ),
            Number::Applied(name, argument) => Number::Applied(
                name.clone(),
                Box::new((**argument).clone()),
            ),
        }
    }
}

impl Clone for Function {
    fn clone(&self) -> (copy: Self)
        ensures
            copy@ == self@,
        decreases self,
    {
        match self {
            Function::Operator(operator) => Function::Operator(*operator),
            Function::Native(name) => Function::Native(name.clone()),
            Function::Lifted(operator, operands) => {
                let mut copies: Vec<Value> = Vec::new();
                for i in 0..operands.len()
                    invariant
                        self is Lifted,
                        self->Lifted_1 == *operands,
                        copies@.len() == i,
                        forall|j: int| 0 <= j < i ==> (#[trigger] copies@[j])@ == operands@[j]@,
                {
                    assert(decreases_to!(*self => self->Lifted_1@[i as int]));
                    copies.push(operands[i].clone());
                }
                proof {
                    lemma_lifted_view(*operator, copies);
                    lemma_lifted_view(*operator, *operands);
                    assert(value_views(copies@) =~= value_views(operands@));
                }
                Function::Lifted(*operator, copies)
            },
        }
    }
}

impl Clone for Value {
    fn clone(&self) -> (copy: Self)
        ensures
            copy@ == self@,
        decreases self,
    {
        match self {
            Value::Number(number) => Value::Number(number.clone()),
            Value::Function(function) => Value::Function(function.clone()),
        }
    }
}

/// Copies of `values`, in their order.
pub fn copies(values: &Vec<Value>) -> (copies: Vec<Value>)
    ensures
        value_views(copies@) == value_views(values@),
{
    let mut copies: Vec<Value> = Vec::new();
    for i in 0..values.len()
        invariant
            copies@.len() == i,
            forall|j: int| 0 <= j < i ==> (#[trigger] copies@[j])@ == values@[j]@,
    {
        copies.push(values[i].clone());
    }
    assert(value_views(copies@) =~= value_views(values@));
    copies
}


/// Whether `result` is the outcome `outcome`, each taken by its view.
pub open spec fn gives(
    result: Result<Value, InvalidArguments>,
    outcome: Result<ValueView, Seq<ValueView>>,
) -> bool {
    match result {
        Ok(value) => outcome == Ok::<ValueView, Seq<ValueView>>(value@),
        Err(error) => outcome == Err::<ValueView, Seq<ValueView>>(error@),
    }
}

fn lift(operator: Operator, operands: Vec<Value>) -> (value: Value)
    ensures
        value@ == ValueView::Function(FunctionView::Lifted(operator, value_views(operands@))),
{
    proof {
        lemma_lifted_view(operator, operands);
    }
    Value::Function(Function::Lifted(operator, operands))
}

/// Applies an operator to its arguments.
pub fn operate(operator: Operator, arguments: Vec<Value>) -> (result: Result<
    Value,
    InvalidArguments,
>)
    ensures
        gives(result, lifted(operator, value_views(arguments@))),
{
    let mut arguments = arguments;
    let ghost given = value_views(arguments@);
    if arguments.len() == 2 {
        let second = arguments.pop().unwrap();
        let first = arguments.pop().unwrap();
        match (first, second) {
            (Value::Number(left), Value::Number(right)) => Ok(
                Value::Number(Number::Combined(operator, Box::new(left), Box::new(right))),
            ),
            (first, second) => {
                let operands = vec![first, second];
                assert(value_views(operands@) =~= given);
                Ok(lift(operator, operands))
            },
        }
    } else if arguments.len() == 1 && (operator == Operator::Plus || operator
        == Operator::Minus) {
        let only = arguments.pop().unwrap();
        match only {
            Value::Number(number) => Ok(
                Value::Number(
                    if operator == Operator::Minus {
                        Number::Negated(Box::new(number))
                    } else {
                        number
                    },
                ),
            ),
            function => {
                let operands = vec![function];
                assert(value_views(operands@) =~= given);
                Ok(lift(operator, operands))
            },
        }
    } else {
        Err(InvalidArguments(arguments))
    }
}

/// `+`: the sum of two numbers, a number itself, or the operator lifted.
pub fn plus(arguments: Vec<Value>) -> (result: Result<Value, InvalidArguments>)
    ensures
        gives(result, lifted(Operator::Plus, value_views(arguments@))),
{
    operate(Operator::Plus, arguments)
}

/// `-`: the difference of two numbers, the negation of one, or the
/// operator lifted.
pub fn minus(arguments: Vec<Value>) -> (result: Result<Value, InvalidArguments>)
    ensures
        gives(result, lifted(Operator::Minus, value_views(arguments@))),
{
    operate(Operator::Minus, arguments)
}

/// `*`: the product of two numbers, or the operator lifted.
pub fn star(arguments: Vec<Value>) -> (result: Result<Value, InvalidArguments>)
    ensures
        gives(result, lifted(Operator::Star, value_views(arguments@))),
{
    operate(Operator::Star, arguments)
}

/// `/`: the quotient of two numbers, or the operator lifted.
pub fn slash(arguments: Vec<Value>) -> (result: Result<Value, InvalidArguments>)
    ensures
        gives(result, lifted(Operator::Slash, value_views(arguments@))),
{
    operate(Operator::Slash, arguments)
}

/// `%`: the remainder of two numbers, or the operator lifted.
pub fn percent(arguments: Vec<Value>) -> (result: Result<Value, InvalidArguments>)
    ensures
        gives(result, lifted(Operator::Percent, value_views(arguments@))),
{
    operate(Operator::Percent, arguments)
}

/// `^`: a number raised to a number, or the operator lifted.
pub fn caret(arguments: Vec<Value>) -> (result: Result<Value, InvalidArguments>)
    ensures
        gives(result, lifted(Operator::Caret, value_views(arguments@))),
{
    operate(Operator::Caret, arguments)
}

impl Function {
    /// Calls the function with the given arguments.
    pub fn call(&self, arguments: &Vec<Value>) -> (result: Result<Value, InvalidArguments>)
        ensures
            gives(result, applied(self@, value_views(arguments@))),
        decreases self,
    {
        match self {
            Function::Operator(operator) => operate(*operator, copies(arguments)),
            Function::Native(name) => {
                if arguments.len() == 1 {
                    match &arguments[0] {
                        Value::Number(number) => {
                            return Ok(
                                Value::Number(
                                    Number::Applied(name.clone(), Box::new(number.clone())),
                                ),
                            );
                        },
                        _ => {},
                    }
                }
                Err(InvalidArguments(copies(arguments)))
            },
            Function::Lifted(operator, operands) => {
                proof {
                    lemma_lifted_view(*operator, *operands);
                }
                let ghost targets = value_views(operands@);
                let ghost given = value_views(arguments@);
                let mut values: Vec<Value> = Vec::new();
                assert(targets.take(0) =~= Seq::empty());
                assert(value_views(values@) =~= Seq::empty());
                for i in 0..operands.len()
                    invariant
                        self is Lifted,
                        self->Lifted_1 == *operands,
                        targets == value_views(operands@),
                        given == value_views(arguments@),
                        resolved(targets.take(i as int), given) == Ok::<
                            Seq<ValueView>,
                            Seq<ValueView>,
                        >(value_views(values@)),
                        applied(self@, given) == match resolved(targets, given) {
                            Ok(values) => lifted(*operator, values),
                            Err(error) => Err(error),
                        },
                {
                    let ghost before = value_views(values@);
                    assert(targets.take(i + 1).drop_last() =~= targets.take(i as int));
                    assert(targets.take(i + 1).last() == operands@[i as int]@);
                    match &operands[i] {
                        Value::Function(function) => {
                            assert(decreases_to!(*self => self->Lifted_1@[i as int]));
                            match function.call(arguments) {
                                Ok(value) => {
                                    values.push(value);
                                    assert(value_views(values@) =~= before.push(value@));
                                },
                                Err(error) => {
                                    proof {
                                        lemma_resolved_fails(targets, given, i + 1);
                                    }
                                    return Err(error);
                                },
                            }
                        },
                        number => {
                            let copy = number.clone();
                            values.push(copy);
                            assert(value_views(values@) =~= before.push(copy@));
                        },
                    }
                }
                assert(targets.take(operands.len() as int) =~= targets);
                operate(*operator, values)
            },
        }
    }
}

/// Where the operands fail up to some place, they fail as a whole, with
/// the same error.
pub proof fn lemma_resolved_fails(operands: Seq<ValueView>, arguments: Seq<ValueView>, count: int)
    requires
        0 <= count <= operands.len(),
        resolved(operands.take(count), arguments) is Err,
    ensures
        resolved(operands, arguments) == resolved(operands.take(count), arguments),
    decreases operands.len() - count,
{
    if count < operands.len() {
        assert(operands.take(count + 1).drop_last() =~= operands.take(count));
        lemma_resolved_fails(operands, arguments, count + 1);
    } else {
        assert(operands.take(count) =~= operands);
    }
}


/// Why a call failed.
#[derive(Debug)]
pub enum CallError {
    InvalidFunction(InvalidFunction),
    InvalidArguments(InvalidArguments),
}

/// Why an evaluation failed.
#[derive(Debug)]
pub enum ExpressionError {
    /// The table has no value of this name.
    UndefinedIdentifier(String),
    /// A call failed.
    FunctionCallFailure(CallError),
}

/// The failure of a call as contracts speak of it.
pub enum CallErrorView {
    InvalidFunction(ValueView),
    InvalidArguments(Seq<ValueView>),
}

/// The failure of an evaluation as contracts speak of it.
pub enum ExpressionErrorView {
    UndefinedIdentifier(Seq<char>),
    FunctionCallFailure(CallErrorView),
}

impl View for CallError {
    type V = CallErrorView;

    open spec fn view(&self) -> CallErrorView {
        match self {
            CallError::InvalidFunction(error) => CallErrorView::InvalidFunction(error@),
            CallError::InvalidArguments(error) => CallErrorView::InvalidArguments(error@),
        }
    }
}

impl View for ExpressionError {
    type V = ExpressionErrorView;

    open spec fn view(&self) -> ExpressionErrorView {
        match self {
            ExpressionError::UndefinedIdentifier(name) => ExpressionErrorView::UndefinedIdentifier(
                name@,
            ),
            ExpressionError::FunctionCallFailure(error) => ExpressionErrorView::FunctionCallFailure(
                error@,
            ),
        }
    }
}

/// What a tree evaluates to against a table. A number is itself and a
/// name is what the table holds for it. For a call, first the callee is
/// evaluated, then the arguments from the left, and the first error ends
/// it; then the callee, if it is a function, is applied to the arguments.
pub open spec fn evaluated(tree: TreeView, table: Map<Seq<char>, ValueView>) -> Result<
    ValueView,
    ExpressionErrorView,
>
    decreases tree,
{
    match tree {
        TreeView::Number(text) => Ok(ValueView::Number(NumberView::Literal(text))),
        TreeView::Identifier(name) => if table.contains_key(name) {
            Ok(table[name])
        } else {
            Err(ExpressionErrorView::UndefinedIdentifier(name))
        },
        TreeView::FunctionCall(callee, arguments) => match evaluated(*callee, table) {
            Ok(target) => match evaluated_all(arguments, table) {
                Ok(values) => called(target, values),
                Err(error) => Err(error),
            },
            Err(error) => Err(error),
        },
    }
}

/// What the call of `target` with `arguments` comes to.
pub open spec fn called(target: ValueView, arguments: Seq<ValueView>) -> Result<
    ValueView,
    ExpressionErrorView,
> {
    match target {
        ValueView::Function(function) => match applied(function, arguments) {
            Ok(value) => Ok(value),
            Err(error) => Err(
                ExpressionErrorView::FunctionCallFailure(CallErrorView::InvalidArguments(error)),
            ),
        },
        ValueView::Number(_) => Err(
            ExpressionErrorView::FunctionCallFailure(CallErrorView::InvalidFunction(target)),
        ),
    }
}

/// What the trees evaluate to, from the left; the first error ends it.
pub open spec fn evaluated_all(trees: Seq<TreeView>, table: Map<Seq<char>, ValueView>) -> Result<
    Seq<ValueView>,
    ExpressionErrorView,
>
    decreases trees,
{
    if trees.len() == 0 {
        Ok(Seq::empty())
    } else {
        match evaluated_all(trees.drop_last(), table) {
            Ok(values) => match evaluated(trees.last(), table) {
                Ok(value) => Ok(values.push(value)),
                Err(error) => Err(error),
            },
            Err(error) => Err(error),
        }
    }
}

/// Where the trees fail up to some place, they fail as a whole, with the
/// same error.
pub proof fn lemma_evaluated_all_fails(
    trees: Seq<TreeView>,
    table: Map<Seq<char>, ValueView>,
    count: int,
)
    requires
        0 <= count <= trees.len(),
        evaluated_all(trees.take(count), table) is Err,
    ensures
        evaluated_all(trees, table) == evaluated_all(trees.take(count), table),
    decreases trees.len() - count,
{
    if count < trees.len() {
        assert(trees.take(count + 1).drop_last() =~= trees.take(count));
        lemma_evaluated_all_fails(trees, table, count + 1);
    } else {
        assert(trees.take(count) =~= trees);
    }
}

/// The table that every expression starts with: the six operators under
/// their symbols.
pub open spec fn builtins() -> Map<Seq<char>, ValueView> {
    Map::<Seq<char>, ValueView>::empty().insert(
        "+"@,
        ValueView::Function(FunctionView::Operator(Operator::Plus)),
    ).insert("-"@, ValueView::Function(FunctionView::Operator(Operator::Minus))).insert(
        "*"@,
        ValueView::Function(FunctionView::Operator(Operator::Star)),
    ).insert("/"@, ValueView::Function(FunctionView::Operator(Operator::Slash))).insert(
        "%"@,
        ValueView::Function(FunctionView::Operator(Operator::Percent)),
    ).insert("^"@, ValueView::Function(FunctionView::Operator(Operator::Caret)))
}

/// Whether `result` is the outcome `outcome`, each taken by its view.
pub open spec fn evaluates(
    result: Result<Value, ExpressionError>,
    outcome: Result<ValueView, ExpressionErrorView>,
) -> bool {
    match result {
        Ok(value) => outcome == Ok::<ValueView, ExpressionErrorView>(value@),
        Err(error) => outcome == Err::<ValueView, ExpressionErrorView>(error@),
    }
}

/// A syntax tree with the table of named values against which it is
/// evaluated.
pub struct Expression {
    tree: ParseTree,
    pub table: StringHashMap<Value>,
}

impl Expression {
    /// The tree that is evaluated.
    pub closed spec fn tree(&self) -> TreeView {
        self.tree@
    }

    /// What the table holds under each name.
    pub closed spec fn bindings(&self) -> Map<Seq<char>, ValueView> {
        self.table@.map_values(|value: Value| value@)
    }

    /// Parses `text` and pairs its tree with a table of the six operators.
    pub fn try_from<'a>(text: &'a str) -> (result: Result<Expression, ParseError<'a>>)
        ensures
            match line(tokens_from(text@, 0), 0) {
                Ok(tree) => {
                    &&& result is Ok
                    &&& result->Ok_0.tree() == tree
                    &&& result->Ok_0.bindings() == builtins()
                },
                Err(error) => result is Err && result->Err_0@ == error,
            },
    {
        let mut parser = Parser::from(text);
        let tree = match parser.parse() {
            Ok(tree) => tree,
            Err(error) => {
                return Err(error);
            },
        };
        let mut table: StringHashMap<Value> = StringHashMap::new();
        table.insert("+".to_owned(), Value::Function(Function::Operator(Operator::Plus)));
        table.insert("-".to_owned(), Value::Function(Function::Operator(Operator::Minus)));
        table.insert("*".to_owned(), Value::Function(Function::Operator(Operator::Star)));
        table.insert("/".to_owned(), Value::Function(Function::Operator(Operator::Slash)));
        table.insert("%".to_owned(), Value::Function(Function::Operator(Operator::Percent)));
        table.insert("^".to_owned(), Value::Function(Function::Operator(Operator::Caret)));
        let expression = Expression { tree, table };
        assert(expression.bindings() =~= builtins());
        Ok(expression)
    }

    /// Binds `name` to `value` in the table, in place of what it was
    /// bound to, if it was.
    pub fn insert(&mut self, name: String, value: Value)
        ensures
            final(self).tree() == old(self).tree(),
            final(self).bindings() == old(self).bindings().insert(name@, value@),
    {
        self.table.insert(name, value);
        assert(self.bindings() =~= old(self).bindings().insert(name@, value@));
    }

    fn eval_tree(&self, tree: &ParseTree) -> (result: Result<Value, ExpressionError>)
        ensures
            evaluates(result, evaluated(tree@, self.bindings())),
        decreases tree,
    {
        match tree {
            ParseTree::Number(text) => Ok(Value::Number(Number::Literal(text.clone()))),
            ParseTree::Identifier(name) => match self.table.get(name.as_str()) {
                Some(value) => Ok(value.clone()),
                None => Err(ExpressionError::UndefinedIdentifier(name.clone())),
            },
            ParseTree::FunctionCall(callee, arguments) => {
                proof {
                    lemma_call_view(**callee, *arguments);
                }
                let ghost table = self.bindings();
                let ghost trees = tree_views(arguments@);
                let ghost head = (**callee)@;
                let target = match self.eval_tree(callee) {
                    Ok(value) => value,
                    Err(error) => {
                        return Err(error);
                    },
                };
                let mut values: Vec<Value> = Vec::new();
                assert(trees.take(0) =~= Seq::empty());
                assert(value_views(values@) =~= Seq::empty());
                for i in 0..arguments.len()
                    invariant
                        tree is FunctionCall,
                        tree->FunctionCall_1 == *arguments,
                        table == self.bindings(),
                        trees == tree_views(arguments@),
                        tree@ == TreeView::FunctionCall(Box::new(head), trees),
                        evaluated(head, table) == Ok::<ValueView, ExpressionErrorView>(target@),
                        evaluated_all(trees.take(i as int), table) == Ok::<
                            Seq<ValueView>,
                            ExpressionErrorView,
                        >(value_views(values@)),
                {
                    let ghost before = value_views(values@);
                    assert(trees.take(i + 1).drop_last() =~= trees.take(i as int));
                    assert(trees.take(i + 1).last() == arguments@[i as int]@);
                    assert(decreases_to!(*tree => tree->FunctionCall_1@[i as int]));
                    match self.eval_tree(&arguments[i]) {
                        Ok(value) => {
                            values.push(value);
                            assert(value_views(values@) =~= before.push(value@));
                        },
                        Err(error) => {
                            proof {
                                lemma_evaluated_all_fails(trees, table, i + 1);
                            }
                            return Err(error);
                        },
                    }
                }
                assert(trees.take(arguments.len() as int) =~= trees);
                match target {
                    Value::Function(function) => match function.call(&values) {
                        Ok(value) => Ok(value),
                        Err(error) => Err(
                            ExpressionError::FunctionCallFailure(
                                CallError::InvalidArguments(error),
                            ),
                        ),
                    },
                    number => Err(
                        ExpressionError::FunctionCallFailure(
                            CallError::InvalidFunction(InvalidFunction(number)),
                        ),
                    ),
                }
            },
        }
    }

    /// Evaluates the expression against its table, which it leaves as it is.
    pub fn eval(&self) -> (result: Result<Value, ExpressionError>)
        ensures
            evaluates(result, evaluated(self.tree(), self.bindings())),
    {
        self.eval_tree(&self.tree)
    }
}


/// Evaluation is repeatable: whatever two evaluations of one expression
/// return, they return the same, value for value or error for error.
pub proof fn lemma_eval_repeatable(
    expression: Expression,
    first: Result<Value, ExpressionError>,
    second: Result<Value, ExpressionError>,
)
    requires
        evaluates(first, evaluated(expression.tree(), expression.bindings())),
        evaluates(second, evaluated(expression.tree(), expression.bindings())),
    ensures
        match (first, second) {
            (Ok(one), Ok(other)) => one@ == other@,
            (Err(one), Err(other)) => one@ == other@,
            _ => false,
        },
{
}


} // verus!
