//! The evaluator: a machine that walks the syntax tree in small steps and
//! hands to its driver what it cannot do itself.
use vstd::prelude::*;
use crate::host::{
    Answer, AnswerView, Completion, CompletionView, Computed, ComputedView, Request, RequestView,
};
use crate::number::{from_int, negligible};
use crate::parser::{AstNode, NodeView, copy_nodes, lemma_node_view, nodes_view};
use crate::stdlib::{Builtin, VaderStdlib, called, named};
use crate::text::{copy_strings, is_word, strings_view, without_line_end};
use crate::types::{
    TypeError, TypeErrorView, ValueView, VaderValue, compared, copy_values, divided, entries_view,
    equality_of, find_entry, indexed, lemma_value_view, lookup, member_of, negation_of, numeric,
    product_of, put_entry, range_count, rendered, sum_of, text_value, truthy, type_error_message,
    values_view, with_entry,
};

verus! {

/// Why a program stopped.
#[derive(Debug, Clone, PartialEq)]
pub enum RuntimeError {
    UndefinedVariable(String),
    UndefinedFunction(String),
    TypeError(String),
    UnsupportedOperation(String),
    InvalidExpression,
    BuiltinError(String),
    DivisionByZero,
    IndexOutOfRange,
    KeyError(String),
    WrongArgumentCount { expected: usize, actual: usize },
    MemberNotFound(String),
}

pub enum RuntimeErrorView {
    UndefinedVariable(Seq<char>),
    UndefinedFunction(Seq<char>),
    TypeError(Seq<char>),
    UnsupportedOperation(Seq<char>),
    InvalidExpression,
    BuiltinError(Seq<char>),
    DivisionByZero,
    IndexOutOfRange,
    KeyError(Seq<char>),
    WrongArgumentCount { expected: usize, actual: usize },
    MemberNotFound(Seq<char>),
}

impl View for RuntimeError {
    type V = RuntimeErrorView;

    open spec fn view(&self) -> RuntimeErrorView {
        match self {
            RuntimeError::UndefinedVariable(name) => RuntimeErrorView::UndefinedVariable(name@),
            RuntimeError::UndefinedFunction(name) => RuntimeErrorView::UndefinedFunction(name@),
            RuntimeError::TypeError(text) => RuntimeErrorView::TypeError(text@),
            RuntimeError::UnsupportedOperation(text) => RuntimeErrorView::UnsupportedOperation(text@),
            RuntimeError::InvalidExpression => RuntimeErrorView::InvalidExpression,
            RuntimeError::BuiltinError(text) => RuntimeErrorView::BuiltinError(text@),
            RuntimeError::DivisionByZero => RuntimeErrorView::DivisionByZero,
            RuntimeError::IndexOutOfRange => RuntimeErrorView::IndexOutOfRange,
            RuntimeError::KeyError(key) => RuntimeErrorView::KeyError(key@),
            RuntimeError::WrongArgumentCount { expected, actual } => RuntimeErrorView::WrongArgumentCount {
                expected: *expected,
                actual: *actual,
            },
            RuntimeError::MemberNotFound(member) => RuntimeErrorView::MemberNotFound(member@),
        }
    }
}

/// The one-line diagnostic of a runtime error.
pub open spec fn runtime_error_message(error: RuntimeErrorView) -> Seq<char> {
    match error {
        RuntimeErrorView::UndefinedVariable(name) => "Variable no definida: "@ + name,
        RuntimeErrorView::UndefinedFunction(name) => "Función no definida: "@ + name,
        RuntimeErrorView::TypeError(text) => "Error de tipo: "@ + text,
        RuntimeErrorView::UnsupportedOperation(text) => "Operación no soportada: "@ + text,
        RuntimeErrorView::InvalidExpression => "Expresión inválida"@,
        RuntimeErrorView::BuiltinError(text) => "Error en función built-in: "@ + text,
        RuntimeErrorView::DivisionByZero => "División por cero"@,
        RuntimeErrorView::IndexOutOfRange => "Índice fuera de rango"@,
        RuntimeErrorView::KeyError(key) => "Clave no encontrada: "@ + key,
        RuntimeErrorView::WrongArgumentCount { expected, actual } => "Número incorrecto de argumentos: esperados "@
            + crate::text::numeral(expected as nat) + ", recibidos "@ + crate::text::numeral(
            actual as nat,
        ),
        RuntimeErrorView::MemberNotFound(member) => "Miembro no encontrado: "@ + member,
    }
}

/// The runtime error that stands for a failed operation on values.
pub open spec fn lifted(error: TypeErrorView) -> RuntimeErrorView {
    match error {
        TypeErrorView::DivisionByZero => RuntimeErrorView::DivisionByZero,
        TypeErrorView::IndexOutOfRange { index } => RuntimeErrorView::IndexOutOfRange,
        TypeErrorView::KeyError { key } => RuntimeErrorView::KeyError(key),
        TypeErrorView::MemberNotFound { member, type_label } => RuntimeErrorView::MemberNotFound(
            member,
        ),
        _ => RuntimeErrorView::TypeError(type_error_message(error)),
    }
}

/// The result of an operation on values, with its error lifted.
pub open spec fn lifted_result<T>(result: Result<T, TypeErrorView>) -> Result<T, RuntimeErrorView> {
    match result {
        Ok(value) => Ok(value),
        Err(error) => Err(lifted(error)),
    }
}

impl RuntimeError {
    /// The one-line diagnostic of the error.
    pub fn message(&self) -> (text: String)
        ensures
            text@ == runtime_error_message(self@),
    {
        let (head, tail) = match self {
            RuntimeError::UndefinedVariable(name) => ("Variable no definida: ", name.clone()),
            RuntimeError::UndefinedFunction(name) => ("Función no definida: ", name.clone()),
            RuntimeError::TypeError(text) => ("Error de tipo: ", text.clone()),
            RuntimeError::UnsupportedOperation(text) => ("Operación no soportada: ", text.clone()),
            RuntimeError::InvalidExpression => {
                return String::from_str("Expresión inválida");
            },
            RuntimeError::BuiltinError(text) => ("Error en función built-in: ", text.clone()),
            RuntimeError::DivisionByZero => {
                return String::from_str("División por cero");
            },
            RuntimeError::IndexOutOfRange => {
                return String::from_str("Índice fuera de rango");
            },
            RuntimeError::KeyError(key) => ("Clave no encontrada: ", key.clone()),
            RuntimeError::WrongArgumentCount { expected, actual } => {
                let mut text = String::from_str("Número incorrecto de argumentos: esperados ");
                text.append(crate::text::numeral_of(*expected as u64).as_str());
                text.append(", recibidos ");
                text.append(crate::text::numeral_of(*actual as u64).as_str());
                return text;
            },
            RuntimeError::MemberNotFound(member) => ("Miembro no encontrado: ", member.clone()),
        };
        let mut text = String::from_str(head);
        text.append(tail.as_str());
        text
    }

    /// The runtime error that stands for a failed operation on values.
    pub fn from_type_error(error: TypeError) -> (lifted_error: RuntimeError)
        ensures
            lifted_error@ == lifted(error@),
    {
        match error {
            TypeError::DivisionByZero => RuntimeError::DivisionByZero,
            TypeError::IndexOutOfRange { index } => RuntimeError::IndexOutOfRange,
            TypeError::KeyError { key } => RuntimeError::KeyError(key),
            TypeError::MemberNotFound { member, type_label } => RuntimeError::MemberNotFound(member),
            other => RuntimeError::TypeError(other.message()),
        }
    }
}

/// A frame of bindings, with the frame around it.
#[derive(Debug)]
pub struct Environment {
    variables: Vec<(String, VaderValue)>,
    parent: Option<Box<Environment>>,
}

pub struct EnvironmentView {
    pub variables: Seq<(Seq<char>, ValueView)>,
    pub parent: Option<Box<EnvironmentView>>,
}

/// The model of an environment. `Environment`'s view is this function.
pub closed spec fn environment_view(environment: Environment) -> EnvironmentView
    decreases environment,
{
    EnvironmentView {
        variables: entries_view(environment.variables@),
        parent: match environment.parent {
            Some(parent) => Some(Box::new(environment_view(*parent))),
            None => None,
        },
    }
}

impl View for Environment {
    type V = EnvironmentView;

    closed spec fn view(&self) -> EnvironmentView {
        environment_view(*self)
    }
}

/// The value that a name has: that of the innermost frame that binds it.
pub open spec fn resolve(environment: EnvironmentView, name: Seq<char>) -> Option<ValueView>
    decreases environment,
{
    match lookup(environment.variables, name) {
        Some(value) => Some(value),
        None => match environment.parent {
            Some(parent) => resolve(*parent, name),
            None => None,
        },
    }
}

/// The environment with the name bound in its innermost frame.
pub open spec fn bound(
    environment: EnvironmentView,
    name: Seq<char>,
    value: ValueView,
) -> EnvironmentView {
    EnvironmentView {
        variables: with_entry(environment.variables, name, value),
        parent: environment.parent,
    }
}

/// A new, empty frame inside the environment.
pub open spec fn entered(environment: EnvironmentView) -> EnvironmentView {
    EnvironmentView { variables: Seq::empty(), parent: Some(Box::new(environment)) }
}

/// The environment around the innermost frame; the environment itself if
/// it has one frame only.
pub open spec fn left(environment: EnvironmentView) -> EnvironmentView {
    match environment.parent {
        Some(parent) => *parent,
        None => environment,
    }
}

/// The environment with the first `count` names bound to the values, in
/// their order.
pub open spec fn bound_all(
    environment: EnvironmentView,
    names: Seq<Seq<char>>,
    values: Seq<ValueView>,
    count: nat,
) -> EnvironmentView
    decreases count,
{
    if count == 0 || count > names.len() || count > values.len() {
        environment
    } else {
        bound(
            bound_all(environment, names, values, (count - 1) as nat),
            names[count - 1],
            values[count - 1],
        )
    }
}

/// What is bound inside a function's frame, in any number of steps, is
/// gone when the frame is left: the caller's environment is as it was.
pub proof fn lemma_frames_do_not_leak(
    caller: EnvironmentView,
    names: Seq<Seq<char>>,
    values: Seq<ValueView>,
    count: nat,
)
    ensures
        bound_all(entered(caller), names, values, count).parent == Some(Box::new(caller)),
        left(bound_all(entered(caller), names, values, count)) == caller,
        left(entered(caller)) == caller,
    decreases count,
{
    if !(count == 0 || count > names.len() || count > values.len()) {
        lemma_frames_do_not_leak(caller, names, values, (count - 1) as nat);
    }
}

/// A binding in the innermost frame hides the outer ones of its name and
/// leaves the other names as they were.
pub proof fn lemma_binding_shadows(
    environment: EnvironmentView,
    name: Seq<char>,
    value: ValueView,
    other: Seq<char>,
)
    ensures
        resolve(bound(environment, name, value), name) == Some(value),
        other != name ==> resolve(bound(environment, name, value), other) == resolve(
            environment,
            other,
        ),
{
    crate::types::lemma_with_entry(environment.variables, name, value);
}

impl Environment {
    /// An environment of one empty frame.
    pub fn new() -> (environment: Self)
        ensures
            environment@ == (EnvironmentView { variables: Seq::empty(), parent: None }),
    {
        let environment = Self { variables: Vec::new(), parent: None };
        assert(entries_view(environment.variables@) =~= Seq::<(Seq<char>, ValueView)>::empty());
        environment
    }

    /// A new, empty frame inside `parent`.
    pub fn with_parent(parent: Environment) -> (environment: Self)
        ensures
            environment@ == entered(parent@),
    {
        let environment = Self { variables: Vec::new(), parent: Some(Box::new(parent)) };
        assert(entries_view(environment.variables@) =~= Seq::<(Seq<char>, ValueView)>::empty());
        environment
    }

    /// The value of a name: that of the innermost frame that binds it.
    pub fn get(&self, name: &str) -> (value: Option<VaderValue>)
        ensures
            match value {
                Some(v) => resolve(self@, name@) == Some(v@),
                None => resolve(self@, name@) is None,
            },
        decreases self,
    {
        let key = String::from_str(name);
        match find_entry(&self.variables, &key) {
            Some(at) => Some(self.variables[at].1.copy()),
            None => match &self.parent {
                Some(parent) => parent.get(name),
                None => None,
            },
        }
    }

    /// Binds the name in the innermost frame.
    pub fn set(&mut self, name: String, value: VaderValue)
        ensures
            final(self)@ == bound(old(self)@, name@, value@),
    {
        put_entry(&mut self.variables, name, value);
    }

    /// Binds the name in the innermost frame.
    pub fn define(&mut self, name: String, value: VaderValue)
        ensures
            final(self)@ == bound(old(self)@, name@, value@),
    {
        self.set(name, value);
    }

    /// A copy of the environment, with the same view.
    pub fn copy(&self) -> (copy: Environment)
        ensures
            copy@ == self@,
        decreases self,
    {
        Environment {
            variables: crate::types::copy_entries(&self.variables),
            parent: match &self.parent {
                Some(parent) => Some(Box::new(parent.copy())),
                None => None,
            },
        }
    }

    /// The environment around the innermost frame.
    pub fn leave(self) -> (outer: Environment)
        ensures
            outer@ == left(self@),
    {
        match self.parent {
            Some(parent) => *parent,
            None => Environment { variables: self.variables, parent: None },
        }
    }
}

impl Clone for Environment {
    fn clone(&self) -> (copy: Self)
        ensures
            copy@ == self@,
    {
        self.copy()
    }
}

impl Default for Environment {
    fn default() -> (environment: Self)
        ensures
            environment@ == (EnvironmentView { variables: Seq::empty(), parent: None }),
    {
        Environment::new()
    }
}

/// Which statements a sequence runs: those of the program, of a block, or
/// of the body of a function.
#[derive(Debug, Clone, Copy, PartialEq, Eq, Structural)]
pub enum Scope {
    Program,
    Block,
    Body,
}

/// A piece of work that the machine still has to do. A task that is done
/// leaves one value.
#[derive(Debug)]
pub enum Task {
    /// Run a statement.
    Execute { node: AstNode },
    /// Evaluate an expression.
    Evaluate { node: AstNode },
    /// Run the statements from `next` on; the value of the one before is on
    /// top of the values.
    Sequence { scope: Scope, statements: Vec<AstNode>, next: usize },
    /// Bind the name to the value on top.
    Assign { name: String },
    /// Run one of the branches, by the condition on top.
    Branch { then_branch: Vec<AstNode>, else_branch: Option<Vec<AstNode>> },
    /// Evaluate the condition of a loop, unless a return is pending.
    WhileTest { condition: AstNode, body: Vec<AstNode> },
    /// Run the body of a loop once more if the condition on top holds.
    WhileCheck { condition: AstNode, body: Vec<AstNode> },
    /// Start a loop over the value on top.
    ForStart { variable: String, body: Vec<AstNode> },
    /// Run the body for the items from `next` on.
    ForList { variable: String, items: Vec<VaderValue>, next: usize, body: Vec<AstNode> },
    /// Run the body for `left` more values, of which `current` is the first.
    ForRange { variable: String, current: i64, step: i64, left: u64, body: Vec<AstNode> },
    /// Make the value on top the pending return value.
    ReturnWith,
    /// Decide by the left operand on top whether the right one is needed.
    AfterLeft { operator: String, right: AstNode },
    /// Replace the value on top by whether it holds as a condition.
    ToBoolean,
    /// Apply a binary operator to the two values on top.
    Apply { operator: String },
    /// Apply a unary operator to the value on top.
    ApplyUnary { operator: String },
    /// Call a function with the `count` values on top.
    Call { name: String, count: usize },
    /// Make a list of the `count` values on top.
    MakeList { count: usize },
    /// Replace the value on top by the string of its display form.
    KeyText,
    /// Make a dictionary of the `count` pairs of a key and a value on top.
    MakeDict { count: usize },
    /// Index the value below the top by the value on top.
    ApplyIndex,
    /// Read a member of the value on top.
    ApplyMember { member: String },
}

pub enum TaskView {
    Execute { node: NodeView },
    Evaluate { node: NodeView },
    Sequence { scope: Scope, statements: Seq<NodeView>, next: usize },
    Assign { name: Seq<char> },
    Branch { then_branch: Seq<NodeView>, else_branch: Option<Seq<NodeView>> },
    WhileTest { condition: NodeView, body: Seq<NodeView> },
    WhileCheck { condition: NodeView, body: Seq<NodeView> },
    ForStart { variable: Seq<char>, body: Seq<NodeView> },
    ForList { variable: Seq<char>, items: Seq<ValueView>, next: usize, body: Seq<NodeView> },
    ForRange { variable: Seq<char>, current: i64, step: i64, left: u64, body: Seq<NodeView> },
    ReturnWith,
    AfterLeft { operator: Seq<char>, right: NodeView },
    ToBoolean,
    Apply { operator: Seq<char> },
    ApplyUnary { operator: Seq<char> },
    Call { name: Seq<char>, count: usize },
    MakeList { count: usize },
    KeyText,
    MakeDict { count: usize },
    ApplyIndex,
    ApplyMember { member: Seq<char> },
}

impl View for Task {
    type V = TaskView;

    open spec fn view(&self) -> TaskView {
        match self {
            Task::Execute { node } => TaskView::Execute { node: node@ },
            Task::Evaluate { node } => TaskView::Evaluate { node: node@ },
            Task::Sequence { scope, statements, next } => TaskView::Sequence {
                scope: *scope,
                statements: nodes_view(statements@),
                next: *next,
            },
            Task::Assign { name } => TaskView::Assign { name: name@ },
            Task::Branch { then_branch, else_branch } => TaskView::Branch {
                then_branch: nodes_view(then_branch@),
                else_branch: crate::parser::branch_view(*else_branch),
            },
            Task::WhileTest { condition, body } => TaskView::WhileTest {
                condition: condition@,
                body: nodes_view(body@),
            },
            Task::WhileCheck { condition, body } => TaskView::WhileCheck {
                condition: condition@,
                body: nodes_view(body@),
            },
            Task::ForStart { variable, body } => TaskView::ForStart {
                variable: variable@,
                body: nodes_view(body@),
            },
            Task::ForList { variable, items, next, body } => TaskView::ForList {
                variable: variable@,
                items: values_view(items@),
                next: *next,
                body: nodes_view(body@),
            },
            Task::ForRange { variable, current, step, left, body } => TaskView::ForRange {
                variable: variable@,
                current: *current,
                step: *step,
                left: *left,
                body: nodes_view(body@),
            },
            Task::ReturnWith => TaskView::ReturnWith,
            Task::AfterLeft { operator, right } => TaskView::AfterLeft {
                operator: operator@,
                right: right@,
            },
            Task::ToBoolean => TaskView::ToBoolean,
            Task::Apply { operator } => TaskView::Apply { operator: operator@ },
            Task::ApplyUnary { operator } => TaskView::ApplyUnary { operator: operator@ },
            Task::Call { name, count } => TaskView::Call { name: name@, count: *count },
            Task::MakeList { count } => TaskView::MakeList { count: *count },
            Task::KeyText => TaskView::KeyText,
            Task::MakeDict { count } => TaskView::MakeDict { count: *count },
            Task::ApplyIndex => TaskView::ApplyIndex,
            Task::ApplyMember { member } => TaskView::ApplyMember { member: member@ },
        }
    }
}

/// The models of a sequence of tasks.
pub open spec fn tasks_view(tasks: Seq<Task>) -> Seq<TaskView> {
    Seq::new(tasks.len(), |i: int| tasks[i]@)
}

/// What the machine tells its driver after a step.
#[derive(Debug, PartialEq)]
pub enum Action {
    /// There is more to do: take the next step.
    Continue,
    /// Do this, and take the next step with the answer.
    Request(Request),
    /// The program has ended, with its value or with an error.
    Finished(Result<VaderValue, RuntimeError>),
}

pub enum ActionView {
    Continue,
    Request(RequestView),
    Finished(Result<ValueView, RuntimeErrorView>),
}

impl View for Action {
    type V = ActionView;

    open spec fn view(&self) -> ActionView {
        match self {
            Action::Continue => ActionView::Continue,
            Action::Request(request) => ActionView::Request(request@),
            Action::Finished(result) => ActionView::Finished(
                match result {
                    Ok(value) => Ok(value@),
                    Err(error) => Err(error@),
                },
            ),
        }
    }
}

/// The state of the machine.
pub struct MachineView {
    /// The bindings.
    pub environment: EnvironmentView,
    /// The names of the builtins.
    pub builtins: Seq<(Seq<char>, Builtin)>,
    /// The value of a `return` that no call has taken yet.
    pub return_value: Option<ValueView>,
    /// The work to do; the last task is the next.
    pub tasks: Seq<TaskView>,
    /// The values of the tasks that are done; the last is the top.
    pub values: Seq<ValueView>,
    /// How the answer to the request that is out becomes a value.
    pub waiting: Option<CompletionView>,
}

/// A step: the state after it and what the driver is told.
pub type Step = (MachineView, ActionView);

/// The machine goes on.
pub open spec fn go(machine: MachineView) -> Step {
    (machine, ActionView::Continue)
}

/// The program ends with an error: no work and no values are left.
pub open spec fn stop(machine: MachineView, error: RuntimeErrorView) -> Step {
    (
        MachineView { tasks: Seq::empty(), values: Seq::empty(), waiting: None, ..machine },
        ActionView::Finished(Err(error)),
    )
}

pub open spec fn with_value(machine: MachineView, value: ValueView) -> MachineView {
    MachineView { values: machine.values.push(value), ..machine }
}

pub open spec fn with_task(machine: MachineView, task: TaskView) -> MachineView {
    MachineView { tasks: machine.tasks.push(task), ..machine }
}

/// The machine without its `count` top values.
pub open spec fn without_values(machine: MachineView, count: int) -> MachineView {
    MachineView { values: machine.values.subrange(0, machine.values.len() - count), ..machine }
}

/// The `count` top values, in the order in which they were pushed.
pub open spec fn top_values(machine: MachineView, count: int) -> Seq<ValueView> {
    machine.values.subrange(machine.values.len() - count, machine.values.len() as int)
}

/// A result arrives: a value is pushed, a request goes out.
pub open spec fn settle(machine: MachineView, computed: ComputedView) -> Step {
    match computed {
        ComputedView::Value(value) => go(with_value(machine, value)),
        ComputedView::Pending { request, completion } => (
            MachineView { waiting: Some(completion), ..machine },
            ActionView::Request(request),
        ),
    }
}

pub open spec fn settle_result(
    machine: MachineView,
    result: Result<ComputedView, RuntimeErrorView>,
) -> Step {
    match result {
        Ok(computed) => settle(machine, computed),
        Err(error) => stop(machine, error),
    }
}

pub open spec fn value_result(
    machine: MachineView,
    result: Result<ValueView, RuntimeErrorView>,
) -> Step {
    match result {
        Ok(value) => go(with_value(machine, value)),
        Err(error) => stop(machine, error),
    }
}

/// Whether an operator is the logical `and`.
pub open spec fn is_and(operator: Seq<char>) -> bool {
    operator == "y"@ || operator == "and"@
}

/// Whether an operator is the logical `or`.
pub open spec fn is_or(operator: Seq<char>) -> bool {
    operator == "o"@ || operator == "or"@
}

/// The result of a comparison for equality, inverted.
pub open spec fn inverted(computed: ComputedView) -> ComputedView {
    match computed {
        ComputedView::Value(ValueView::Boolean(truth)) => ComputedView::Value(
            ValueView::Boolean(!truth),
        ),
        ComputedView::Pending { request, completion: CompletionView::Equality { negated } } => ComputedView::Pending {
            request,
            completion: CompletionView::Equality { negated: !negated },
        },
        other => other,
    }
}

pub open spec fn as_computed(result: Result<ValueView, TypeErrorView>) -> Result<
    ComputedView,
    TypeErrorView,
> {
    match result {
        Ok(value) => Ok(ComputedView::Value(value)),
        Err(error) => Err(error),
    }
}

/// What a binary operator makes of two values.
pub open spec fn binary_value(operator: Seq<char>, left: ValueView, right: ValueView) -> Result<
    ComputedView,
    RuntimeErrorView,
> {
    if operator == "+"@ {
        lifted_result(sum_of(left, right))
    } else if operator == "-"@ {
        lifted_result(numeric(crate::host::NumberOp::Subtract, "restar"@, left, right))
    } else if operator == "*"@ {
        lifted_result(product_of(left, right))
    } else if operator == "/"@ {
        lifted_result(divided(crate::host::NumberOp::Divide, "dividir"@, left, right))
    } else if operator == "%"@ {
        lifted_result(divided(crate::host::NumberOp::Modulo, "calcular modulo de"@, left, right))
    } else if operator == "=="@ {
        Ok(equality_of(left, right))
    } else if operator == "!="@ {
        Ok(inverted(equality_of(left, right)))
    } else if operator == "<"@ {
        lifted_result(as_computed(compared(left, right, |order: int| order < 0)))
    } else if operator == "<="@ {
        lifted_result(as_computed(compared(left, right, |order: int| order <= 0)))
    } else if operator == ">"@ {
        lifted_result(as_computed(compared(left, right, |order: int| order > 0)))
    } else if operator == ">="@ {
        lifted_result(as_computed(compared(left, right, |order: int| order >= 0)))
    } else {
        Err(RuntimeErrorView::UnsupportedOperation(operator))
    }
}

/// What a unary operator makes of a value.
pub open spec fn unary_value(operator: Seq<char>, operand: ValueView) -> Result<
    ValueView,
    RuntimeErrorView,
> {
    if operator == "-"@ {
        lifted_result(negation_of(operand))
    } else if operator == "not"@ || operator == "no"@ {
        Ok(ValueView::Boolean(!truthy(operand)))
    } else {
        Err(RuntimeErrorView::UnsupportedOperation(operator))
    }
}

/// The text of the failure to read a file.
pub open spec fn read_failure(path: Seq<char>, reason: Seq<char>) -> Seq<char> {
    "Error leyendo archivo '"@ + path + "': "@ + reason
}

/// The text of the failure to write a file.
pub open spec fn write_failure(path: Seq<char>, reason: Seq<char>) -> Seq<char> {
    "Error escribiendo archivo '"@ + path + "': "@ + reason
}

pub open spec fn builtin_result(result: Result<ComputedView, Seq<char>>) -> Result<
    ComputedView,
    RuntimeErrorView,
> {
    match result {
        Ok(computed) => Ok(computed),
        Err(text) => Err(RuntimeErrorView::BuiltinError(text)),
    }
}

/// What the answer to a request becomes.
pub open spec fn completed(completion: CompletionView, answer: AnswerView) -> Result<
    ComputedView,
    RuntimeErrorView,
> {
    match (completion, answer) {
        (CompletionView::Number, AnswerView::Number(bits)) => Ok(
            ComputedView::Value(ValueView::Number(bits)),
        ),
        (CompletionView::Equality { negated }, AnswerView::Number(difference)) => Ok(
            ComputedView::Value(ValueView::Boolean(negligible(difference) != negated)),
        ),
        (CompletionView::Text, AnswerView::Text(text)) => Ok(
            ComputedView::Value(ValueView::String(text)),
        ),
        (CompletionView::Argument { builtin, arguments, index }, AnswerView::Text(text)) => if index
            < arguments.len() {
            builtin_result(called(builtin, arguments.update(index as int, ValueView::String(text))))
        } else {
            Err(RuntimeErrorView::InvalidExpression)
        },
        (CompletionView::Value { value }, AnswerView::Done) => Ok(ComputedView::Value(value)),
        (CompletionView::Line, AnswerView::Text(line)) => Ok(
            ComputedView::Value(ValueView::String(without_line_end(line))),
        ),
        (CompletionView::Line, AnswerView::Failure(reason)) => Err(
            RuntimeErrorView::BuiltinError(reason),
        ),
        (CompletionView::FileRead { path }, AnswerView::Text(contents)) => Ok(
            ComputedView::Value(ValueView::String(contents)),
        ),
        (CompletionView::FileRead { path }, AnswerView::Failure(reason)) => Err(
            RuntimeErrorView::BuiltinError(read_failure(path, reason)),
        ),
        (CompletionView::FileWritten { path }, AnswerView::Done) => Ok(
            ComputedView::Value(ValueView::Boolean(true)),
        ),
        (CompletionView::FileWritten { path }, AnswerView::Failure(reason)) => Err(
            RuntimeErrorView::BuiltinError(write_failure(path, reason)),
        ),
        (CompletionView::Halt, _) => Ok(ComputedView::Value(ValueView::Null)),
        _ => Err(RuntimeErrorView::BuiltinError("Respuesta inesperada"@)),
    }
}

/// The tasks that evaluate the last `count` of the expressions, the first
/// of them on top.
pub open spec fn evaluations(nodes: Seq<NodeView>, count: nat) -> Seq<TaskView>
    decreases count,
{
    if count == 0 || count > nodes.len() {
        Seq::empty()
    } else {
        evaluations(nodes, (count - 1) as nat).push(
            TaskView::Evaluate { node: nodes[nodes.len() - count] },
        )
    }
}

/// The tasks that evaluate the last `count` of the pairs, each key before
/// its value and made a string, the first pair on top.
pub open spec fn pair_evaluations(pairs: Seq<(NodeView, NodeView)>, count: nat) -> Seq<TaskView>
    decreases count,
{
    if count == 0 || count > pairs.len() {
        Seq::empty()
    } else {
        pair_evaluations(pairs, (count - 1) as nat) + seq![
            TaskView::Evaluate { node: pairs[pairs.len() - count].1 },
            TaskView::KeyText,
            TaskView::Evaluate { node: pairs[pairs.len() - count].0 },
        ]
    }
}

/// The machine with tasks added.
pub open spec fn with_tasks(machine: MachineView, tasks: Seq<TaskView>) -> MachineView {
    MachineView { tasks: machine.tasks + tasks, ..machine }
}

/// The machine takes up an expression.
pub open spec fn evaluate(machine: MachineView, node: NodeView) -> Step {
    match node {
        NodeView::Literal { value } => go(with_value(machine, value)),
        NodeView::Variable { name } => match resolve(machine.environment, name) {
            Some(value) => go(with_value(machine, value)),
            None => stop(machine, RuntimeErrorView::UndefinedVariable(name)),
        },
        NodeView::BinaryOp { left, operator, right } => go(
            with_task(
                with_task(machine, TaskView::AfterLeft { operator, right: *right }),
                TaskView::Evaluate { node: *left },
            ),
        ),
        NodeView::UnaryOp { operator, operand } => go(
            with_task(
                with_task(machine, TaskView::ApplyUnary { operator }),
                TaskView::Evaluate { node: *operand },
            ),
        ),
        NodeView::FunctionCall { name, args } => go(
            with_tasks(
                with_task(machine, TaskView::Call { name, count: args.len() as usize }),
                evaluations(args, args.len()),
            ),
        ),
        NodeView::List { elements } => go(
            with_tasks(
                with_task(machine, TaskView::MakeList { count: elements.len() as usize }),
                evaluations(elements, elements.len()),
            ),
        ),
        NodeView::Dict { pairs } => go(
            with_tasks(
                with_task(machine, TaskView::MakeDict { count: pairs.len() as usize }),
                pair_evaluations(pairs, pairs.len()),
            ),
        ),
        NodeView::Index { object, index } => go(
            with_task(
                with_task(with_task(machine, TaskView::ApplyIndex), TaskView::Evaluate { node: *index }),
                TaskView::Evaluate { node: *object },
            ),
        ),
        NodeView::MemberAccess { object, member } => go(
            with_task(
                with_task(machine, TaskView::ApplyMember { member }),
                TaskView::Evaluate { node: *object },
            ),
        ),
        _ => stop(machine, RuntimeErrorView::InvalidExpression),
    }
}

/// The machine takes up a statement.
pub open spec fn execute(machine: MachineView, node: NodeView) -> Step {
    match node {
        NodeView::Assignment { name, value } => go(
            with_task(with_task(machine, TaskView::Assign { name }), TaskView::Evaluate { node: *value }),
        ),
        NodeView::If { condition, then_branch, else_branch } => go(
            with_task(
                with_task(machine, TaskView::Branch { then_branch, else_branch }),
                TaskView::Evaluate { node: *condition },
            ),
        ),
        NodeView::While { condition, body } => go(
            with_task(
                with_value(machine, ValueView::Null),
                TaskView::WhileTest { condition: *condition, body },
            ),
        ),
        NodeView::For { variable, iterable, body } => go(
            with_task(
                with_task(machine, TaskView::ForStart { variable, body }),
                TaskView::Evaluate { node: *iterable },
            ),
        ),
        NodeView::FunctionDef { name, params, body } => go(
            with_value(
                MachineView {
                    environment: bound(
                        machine.environment,
                        name,
                        ValueView::Function { name, params, body },
                    ),
                    ..machine
                },
                ValueView::Function { name, params, body },
            ),
        ),
        NodeView::Return { value } => match value {
            Some(inner) => go(
                with_task(with_task(machine, TaskView::ReturnWith), TaskView::Evaluate { node: *inner }),
            ),
            None => go(
                with_value(
                    MachineView { return_value: Some(ValueView::Null), ..machine },
                    ValueView::Null,
                ),
            ),
        },
        NodeView::Block { statements } => go(
            with_task(machine, TaskView::Sequence { scope: Scope::Block, statements, next: 0 }),
        ),
        _ => evaluate(machine, node),
    }
}

/// A sequence of statements ends, its value on top: the program and the
/// body of a function take a pending return value as their value, and the
/// body of a function leaves its frame.
pub open spec fn ended(machine: MachineView, scope: Scope) -> Step {
    let taken = match (scope, machine.return_value) {
        (Scope::Block, _) => machine,
        (_, Some(value)) => MachineView {
            return_value: None,
            values: machine.values.drop_last().push(value),
            ..machine
        },
        (_, None) => machine,
    };
    if machine.values.len() == 0 {
        stop(machine, RuntimeErrorView::InvalidExpression)
    } else if scope == Scope::Body {
        go(MachineView { environment: left(taken.environment), ..taken })
    } else {
        go(taken)
    }
}

/// The machine goes on with a sequence of statements: it ends if none is
/// left or a return is pending, and else runs the next statement in place
/// of the value of the one before.
pub open spec fn sequence(
    machine: MachineView,
    scope: Scope,
    statements: Seq<NodeView>,
    next: usize,
) -> Step {
    if next == 0 {
        if statements.len() == 0 {
            ended(with_value(machine, ValueView::Null), scope)
        } else {
            go(
                with_task(
                    with_task(machine, TaskView::Sequence { scope, statements, next: 1 }),
                    TaskView::Execute { node: statements[0] },
                ),
            )
        }
    } else if machine.return_value is Some || next >= statements.len() {
        ended(machine, scope)
    } else if machine.values.len() == 0 {
        stop(machine, RuntimeErrorView::InvalidExpression)
    } else {
        go(
            with_task(
                with_task(
                    without_values(machine, 1),
                    TaskView::Sequence { scope, statements, next: (next + 1) as usize },
                ),
                TaskView::Execute { node: statements[next as int] },
            ),
        )
    }
}

/// The entries that the pairs of a key and a value in `flat` make, the
/// later of two equal keys in the place of the earlier.
pub open spec fn paired(flat: Seq<ValueView>, count: nat) -> Option<Seq<(Seq<char>, ValueView)>>
    decreases count,
{
    if count == 0 {
        Some(Seq::empty())
    } else if 2 * count > flat.len() {
        None
    } else {
        match (paired(flat, (count - 1) as nat), flat[2 * count - 2]) {
            (Some(entries), ValueView::String(key)) => Some(
                with_entry(entries, key, flat[2 * count - 1]),
            ),
            _ => None,
        }
    }
}

/// The call of a function of the program: a new frame with the
/// parameters bound to the arguments, in which the body runs.
pub open spec fn user_call(
    machine: MachineView,
    params: Seq<Seq<char>>,
    body: Seq<NodeView>,
    arguments: Seq<ValueView>,
) -> Step {
    if params.len() != arguments.len() {
        stop(
            machine,
            RuntimeErrorView::WrongArgumentCount {
                expected: params.len() as usize,
                actual: arguments.len() as usize,
            },
        )
    } else {
        go(
            with_task(
                MachineView {
                    environment: bound_all(
                        entered(machine.environment),
                        params,
                        arguments,
                        params.len(),
                    ),
                    ..machine
                },
                TaskView::Sequence { scope: Scope::Body, statements: body, next: 0 },
            ),
        )
    }
}

/// The call of the function with a name: the builtin of that name if
/// there is one, and else the function that the name is bound to.
pub open spec fn call(machine: MachineView, name: Seq<char>, arguments: Seq<ValueView>) -> Step {
    match named(machine.builtins, name, 0) {
        Some(builtin) => settle_result(machine, builtin_result(called(builtin, arguments))),
        None => match resolve(machine.environment, name) {
            Some(ValueView::Function { name: defined, params, body }) => user_call(
                machine,
                params,
                body,
                arguments,
            ),
            _ => stop(machine, RuntimeErrorView::UndefinedFunction(name)),
        },
    }
}

/// The machine does a task, which is off its tasks already.
pub open spec fn run(machine: MachineView, task: TaskView) -> Step {
    let depth = machine.values.len() as int;
    let short = stop(machine, RuntimeErrorView::InvalidExpression);
    match task {
        TaskView::Execute { node } => execute(machine, node),
        TaskView::Evaluate { node } => evaluate(machine, node),
        TaskView::Sequence { scope, statements, next } => sequence(machine, scope, statements, next),
        TaskView::Assign { name } => if depth < 1 {
            short
        } else {
            go(
                MachineView {
                    environment: bound(machine.environment, name, machine.values.last()),
                    ..machine
                },
            )
        },
        TaskView::Branch { then_branch, else_branch } => if depth < 1 {
            short
        } else if truthy(machine.values.last()) {
            go(
                with_task(
                    without_values(machine, 1),
                    TaskView::Sequence { scope: Scope::Block, statements: then_branch, next: 0 },
                ),
            )
        } else {
            match else_branch {
                Some(statements) => go(
                    with_task(
                        without_values(machine, 1),
                        TaskView::Sequence { scope: Scope::Block, statements, next: 0 },
                    ),
                ),
                None => go(with_value(without_values(machine, 1), ValueView::Null)),
            }
        },
        TaskView::WhileTest { condition, body } => if machine.return_value is Some {
            go(machine)
        } else {
            go(
                with_task(
                    with_task(machine, TaskView::WhileCheck { condition, body }),
                    TaskView::Evaluate { node: condition },
                ),
            )
        },
        TaskView::WhileCheck { condition, body } => if depth < 2 {
            short
        } else if truthy(machine.values.last()) {
            go(
                with_task(
                    with_task(without_values(machine, 2), TaskView::WhileTest { condition, body }),
                    TaskView::Sequence { scope: Scope::Block, statements: body, next: 0 },
                ),
            )
        } else {
            go(without_values(machine, 1))
        },
        TaskView::ForStart { variable, body } => if depth < 1 {
            short
        } else {
            match machine.values.last() {
                ValueView::List(items) => go(
                    with_task(
                        with_value(without_values(machine, 1), ValueView::Null),
                        TaskView::ForList { variable, items, next: 0, body },
                    ),
                ),
                ValueView::Range { start, end, step } => go(
                    with_task(
                        with_value(without_values(machine, 1), ValueView::Null),
                        TaskView::ForRange {
                            variable,
                            current: start,
                            step,
                            left: range_count(start as int, end as int, step as int) as u64,
                            body,
                        },
                    ),
                ),
                _ => stop(machine, RuntimeErrorView::TypeError("Objeto no iterable"@)),
            }
        },
        TaskView::ForList { variable, items, next, body } => if machine.return_value is Some || next
            >= items.len() {
            go(machine)
        } else if depth < 1 {
            short
        } else {
            go(
                with_task(
                    with_task(
                        MachineView {
                            environment: bound(machine.environment, variable, items[next as int]),
                            ..without_values(machine, 1)
                        },
                        TaskView::ForList { variable, items, next: (next + 1) as usize, body },
                    ),
                    TaskView::Sequence { scope: Scope::Block, statements: body, next: 0 },
                ),
            )
        },
        TaskView::ForRange { variable, current, step, left, body } => if machine.return_value
            is Some || left == 0 {
            go(machine)
        } else if depth < 1 {
            short
        } else {
            go(
                with_task(
                    with_task(
                        MachineView {
                            environment: bound(
                                machine.environment,
                                variable,
                                ValueView::Number(from_int(current as int) as u64),
                            ),
                            ..without_values(machine, 1)
                        },
                        TaskView::ForRange {
                            variable,
                            current: if left > 1 && i64::MIN <= current + step <= i64::MAX {
                                (current + step) as i64
                            } else {
                                current
                            },
                            step,
                            left: (left - 1) as u64,
                            body,
                        },
                    ),
                    TaskView::Sequence { scope: Scope::Block, statements: body, next: 0 },
                ),
            )
        },
        TaskView::ReturnWith => if depth < 1 {
            short
        } else {
            go(MachineView { return_value: Some(machine.values.last()), ..machine })
        },
        TaskView::AfterLeft { operator, right } => if depth < 1 {
            short
        } else if is_and(operator) {
            if truthy(machine.values.last()) {
                go(
                    with_task(
                        with_task(without_values(machine, 1), TaskView::ToBoolean),
                        TaskView::Evaluate { node: right },
                    ),
                )
            } else {
                go(with_value(without_values(machine, 1), ValueView::Boolean(false)))
            }
        } else if is_or(operator) {
            if truthy(machine.values.last()) {
                go(with_value(without_values(machine, 1), ValueView::Boolean(true)))
            } else {
                go(
                    with_task(
                        with_task(without_values(machine, 1), TaskView::ToBoolean),
                        TaskView::Evaluate { node: right },
                    ),
                )
            }
        } else {
            go(
                with_task(
                    with_task(machine, TaskView::Apply { operator }),
                    TaskView::Evaluate { node: right },
                ),
            )
        },
        TaskView::ToBoolean => if depth < 1 {
            short
        } else {
            go(
                with_value(
                    without_values(machine, 1),
                    ValueView::Boolean(truthy(machine.values.last())),
                ),
            )
        },
        TaskView::Apply { operator } => if depth < 2 {
            short
        } else {
            settle_result(
                without_values(machine, 2),
                binary_value(operator, machine.values[depth - 2], machine.values[depth - 1]),
            )
        },
        TaskView::ApplyUnary { operator } => if depth < 1 {
            short
        } else {
            value_result(without_values(machine, 1), unary_value(operator, machine.values.last()))
        },
        TaskView::Call { name, count } => if depth < count {
            short
        } else {
            call(without_values(machine, count as int), name, top_values(machine, count as int))
        },
        TaskView::MakeList { count } => if depth < count {
            short
        } else {
            go(
                with_value(
                    without_values(machine, count as int),
                    ValueView::List(top_values(machine, count as int)),
                ),
            )
        },
        TaskView::KeyText => if depth < 1 {
            short
        } else {
            match machine.values.last() {
                ValueView::String(text) => go(machine),
                other => settle(without_values(machine, 1), text_value(rendered(other))),
            }
        },
        TaskView::MakeDict { count } => if depth < 2 * count {
            short
        } else {
            match paired(top_values(machine, 2 * count), count as nat) {
                Some(entries) => go(
                    with_value(without_values(machine, 2 * count), ValueView::Dict(entries)),
                ),
                None => short,
            }
        },
        TaskView::ApplyIndex => if depth < 2 {
            short
        } else {
            value_result(
                without_values(machine, 2),
                lifted_result(indexed(machine.values[depth - 2], machine.values[depth - 1])),
            )
        },
        TaskView::ApplyMember { member } => if depth < 1 {
            short
        } else {
            value_result(
                without_values(machine, 1),
                lifted_result(member_of(machine.values.last(), member)),
            )
        },
    }
}

/// The machine with a program to run, and nothing else to do.
pub open spec fn loaded(machine: MachineView, statements: Seq<NodeView>) -> MachineView {
    MachineView {
        tasks: seq![TaskView::Sequence { scope: Scope::Program, statements, next: 0 }],
        values: Seq::empty(),
        waiting: None,
        ..machine
    }
}

/// One step of the machine. While a request is out, the step takes its
/// answer. Else the step does the last of the tasks; with no task left,
/// the program has ended, and its value is the value on top.
pub open spec fn step(machine: MachineView, answer: Option<AnswerView>) -> Step {
    match machine.waiting {
        Some(completion) => match answer {
            Some(given) => settle_result(
                MachineView { waiting: None, ..machine },
                completed(completion, given),
            ),
            None => stop(machine, RuntimeErrorView::BuiltinError("Falta la respuesta"@)),
        },
        None => if machine.tasks.len() == 0 {
            (
                MachineView { values: Seq::empty(), ..machine },
                ActionView::Finished(
                    Ok(
                        if machine.values.len() > 0 {
                            machine.values.last()
                        } else {
                            ValueView::Null
                        },
                    ),
                ),
            )
        } else {
            run(MachineView { tasks: machine.tasks.drop_last(), ..machine }, machine.tasks.last())
        },
    }
}

} // verus!

verus! {

/// The model of an optional value.
pub open spec fn optional_value(value: Option<VaderValue>) -> Option<ValueView> {
    match value {
        Some(v) => Some(v@),
        None => None,
    }
}

/// The model of an optional completion.
pub open spec fn optional_completion(completion: Option<Completion>) -> Option<CompletionView> {
    match completion {
        Some(c) => Some(c@),
        None => None,
    }
}

/// The model of an optional answer.
pub open spec fn optional_answer(answer: Option<Answer>) -> Option<AnswerView> {
    match answer {
        Some(a) => Some(a@),
        None => None,
    }
}

/// What the answer to a request becomes.
pub fn complete(completion: Completion, answer: Answer) -> (result: Result<Computed, RuntimeError>)
    ensures
        crate::host::models(result, completed(completion@, answer@)),
{
    match (completion, answer) {
        (Completion::Number, Answer::Number(bits)) => Ok(Computed::Value(VaderValue::Number(bits))),
        (Completion::Equality { negated }, Answer::Number(difference)) => Ok(
            Computed::Value(
                VaderValue::Boolean(crate::number::is_negligible(difference) != negated),
            ),
        ),
        (Completion::Text, Answer::Text(text)) => Ok(Computed::Value(VaderValue::String(text))),
        (Completion::Argument { builtin, arguments, index }, Answer::Text(text)) => {
            let mut arguments = arguments;
            if index < arguments.len() {
                let ghost before = values_view(arguments@);
                arguments.set(index, VaderValue::String(text));
                assert(values_view(arguments@) =~= before.update(
                    index as int,
                    ValueView::String(text@),
                ));
                match builtin.call(&arguments) {
                    Ok(computed) => Ok(computed),
                    Err(message) => Err(RuntimeError::BuiltinError(message)),
                }
            } else {
                Err(RuntimeError::InvalidExpression)
            }
        },
        (Completion::Value { value }, Answer::Done) => Ok(Computed::Value(value)),
        (Completion::Line, Answer::Text(line)) => Ok(
            Computed::Value(VaderValue::String(crate::text::strip_line_end(&line))),
        ),
        (Completion::Line, Answer::Failure(reason)) => Err(RuntimeError::BuiltinError(reason)),
        (Completion::FileRead { path }, Answer::Text(contents)) => Ok(
            Computed::Value(VaderValue::String(contents)),
        ),
        (Completion::FileRead { path }, Answer::Failure(reason)) => {
            let mut text = String::from_str("Error leyendo archivo '");
            text.append(path.as_str());
            text.append("': ");
            text.append(reason.as_str());
            Err(RuntimeError::BuiltinError(text))
        },
        (Completion::FileWritten { path }, Answer::Done) => Ok(
            Computed::Value(VaderValue::Boolean(true)),
        ),
        (Completion::FileWritten { path }, Answer::Failure(reason)) => {
            let mut text = String::from_str("Error escribiendo archivo '");
            text.append(path.as_str());
            text.append("': ");
            text.append(reason.as_str());
            Err(RuntimeError::BuiltinError(text))
        },
        (Completion::Halt, _) => Ok(Computed::Value(VaderValue::Null)),
        _ => Err(RuntimeError::BuiltinError(String::from_str("Respuesta inesperada"))),
    }
}

/// The result of an operation on values, with its error lifted.
fn lift(result: Result<Computed, TypeError>) -> (lifted_one: Result<Computed, RuntimeError>)
    ensures
        match (result, lifted_one) {
            (Ok(before), Ok(after)) => before@ == after@,
            (Err(before), Err(after)) => after@ == lifted(before@),
            _ => false,
        },
{
    match result {
        Ok(computed) => Ok(computed),
        Err(error) => Err(RuntimeError::from_type_error(error)),
    }
}

/// The result of an operation on values that gives a value, with its
/// error lifted.
fn lift_value(
    result: Result<VaderValue, TypeError>,
) -> (lifted_one: Result<VaderValue, RuntimeError>)
    ensures
        match (result, lifted_one) {
            (Ok(before), Ok(after)) => before@ == after@,
            (Err(before), Err(after)) => after@ == lifted(before@),
            _ => false,
        },
{
    match result {
        Ok(value) => Ok(value),
        Err(error) => Err(RuntimeError::from_type_error(error)),
    }
}

/// The result of a comparison, as a computed value.
fn lift_comparison(
    result: Result<VaderValue, TypeError>,
) -> (lifted_one: Result<Computed, RuntimeError>)
    ensures
        match (result, lifted_one) {
            (Ok(before), Ok(after)) => after@ == ComputedView::Value(before@),
            (Err(before), Err(after)) => after@ == lifted(before@),
            _ => false,
        },
{
    match result {
        Ok(value) => Ok(Computed::Value(value)),
        Err(error) => Err(RuntimeError::from_type_error(error)),
    }
}

/// The result of a comparison for equality, inverted.
fn invert(computed: Computed) -> (other: Computed)
    ensures
        other@ == inverted(computed@),
{
    match computed {
        Computed::Value(VaderValue::Boolean(truth)) => Computed::Value(VaderValue::Boolean(!truth)),
        Computed::Pending { request, completion: Completion::Equality { negated } } => Computed::Pending {
            request,
            completion: Completion::Equality { negated: !negated },
        },
        other => other,
    }
}

/// What a binary operator makes of two values.
pub fn apply_binary(operator: &String, left: &VaderValue, right: &VaderValue) -> (result: Result<
    Computed,
    RuntimeError,
>)
    ensures
        crate::host::models(result, binary_value(operator@, left@, right@)),
{
    if is_word(operator, "+") {
        lift(left.add(right))
    } else if is_word(operator, "-") {
        lift(left.subtract(right))
    } else if is_word(operator, "*") {
        lift(left.multiply(right))
    } else if is_word(operator, "/") {
        lift(left.divide(right))
    } else if is_word(operator, "%") {
        lift(left.modulo(right))
    } else if is_word(operator, "==") {
        Ok(left.equals(right))
    } else if is_word(operator, "!=") {
        Ok(invert(left.equals(right)))
    } else if is_word(operator, "<") {
        lift_comparison(left.less_than(right))
    } else if is_word(operator, "<=") {
        lift_comparison(left.less_equal(right))
    } else if is_word(operator, ">") {
        lift_comparison(left.greater_than(right))
    } else if is_word(operator, ">=") {
        lift_comparison(left.greater_equal(right))
    } else {
        Err(RuntimeError::UnsupportedOperation(operator.clone()))
    }
}

/// What a unary operator makes of a value.
pub fn apply_unary(operator: &String, operand: &VaderValue) -> (result: Result<
    VaderValue,
    RuntimeError,
>)
    ensures
        crate::host::models(result, unary_value(operator@, operand@)),
{
    if is_word(operator, "-") {
        lift_value(operand.negate())
    } else if is_word(operator, "not") || is_word(operator, "no") {
        Ok(VaderValue::Boolean(!operand.is_truthy()))
    } else {
        Err(RuntimeError::UnsupportedOperation(operator.clone()))
    }
}

/// How many values a range visits.
pub fn count_range(start: i64, end: i64, step: i64) -> (count: u64)
    ensures
        count == range_count(start as int, end as int, step as int),
{
    if step > 0 && start < end {
        let distance: i128 = end as i128 - start as i128;
        let stride: i128 = step as i128;
        let count: i128 = (distance + stride - 1) / stride;
        assert(0 <= count <= distance) by (nonlinear_arith)
            requires
                count == (distance + stride - 1) / (stride as int),
                distance > 0,
                stride > 0,
        ;
        count as u64
    } else if step < 0 && start > end {
        let distance: i128 = start as i128 - end as i128;
        let stride: i128 = 0 - step as i128;
        let count: i128 = (distance + stride - 1) / stride;
        assert(0 <= count <= distance) by (nonlinear_arith)
            requires
                count == (distance + stride - 1) / (stride as int),
                distance > 0,
                stride > 0,
        ;
        count as u64
    } else {
        0
    }
}

/// The evaluator.
pub struct VaderInterpreter {
    environment: Environment,
    pub stdlib: VaderStdlib,
    return_value: Option<VaderValue>,
    tasks: Vec<Task>,
    values: Vec<VaderValue>,
    waiting: Option<Completion>,
}

impl View for VaderInterpreter {
    type V = MachineView;

    closed spec fn view(&self) -> MachineView {
        MachineView {
            environment: self.environment@,
            builtins: self.stdlib.table(),
            return_value: optional_value(self.return_value),
            tasks: tasks_view(self.tasks@),
            values: values_view(self.values@),
            waiting: optional_completion(self.waiting),
        }
    }
}

impl VaderInterpreter {
    /// An evaluator with the builtins of the language and no bindings.
    pub fn new() -> (interpreter: Self)
        ensures
            interpreter@ == (MachineView {
                environment: EnvironmentView { variables: Seq::empty(), parent: None },
                builtins: crate::stdlib::standard_table(),
                return_value: None,
                tasks: Seq::empty(),
                values: Seq::empty(),
                waiting: None,
            }),
    {
        let interpreter = Self {
            environment: Environment::new(),
            stdlib: VaderStdlib::new(),
            return_value: None,
            tasks: Vec::new(),
            values: Vec::new(),
            waiting: None,
        };
        assert(tasks_view(interpreter.tasks@) =~= Seq::<TaskView>::empty());
        assert(values_view(interpreter.values@) =~= Seq::<ValueView>::empty());
        interpreter
    }

    /// The bindings.
    pub fn environment(&self) -> (environment: &Environment)
        ensures
            environment@ == self@.environment,
    {
        &self.environment
    }

    /// Takes up a program: its statements are all the work there is. The
    /// driver then calls `resume` until the program has finished.
    pub fn interpret(&mut self, statements: Vec<AstNode>) -> (action: Action)
        ensures
            final(self)@ == loaded(old(self)@, nodes_view(statements@)),
            action@ == ActionView::Continue,
    {
        self.tasks = Vec::new();
        self.values = Vec::new();
        self.waiting = None;
        let task = Task::Sequence { scope: Scope::Program, statements, next: 0 };
        self.tasks.push(task);
        assert(tasks_view(self.tasks@) =~= seq![task@]);
        assert(values_view(self.values@) =~= Seq::<ValueView>::empty());
        Action::Continue
    }

    /// Takes up a program, as `interpret` does.
    pub fn execute(&mut self, statements: Vec<AstNode>) -> (action: Action)
        ensures
            final(self)@ == loaded(old(self)@, nodes_view(statements@)),
            action@ == ActionView::Continue,
    {
        self.interpret(statements)
    }

    /// Takes one step. `answer` is the driver's answer to the request of
    /// the step before, if that step made one.
    pub fn resume(&mut self, answer: Option<Answer>) -> (action: Action)
        ensures
            (final(self)@, action@) == step(old(self)@, optional_answer(answer)),
    {
        match self.waiting.take() {
            Some(completion) => match answer {
                Some(given) => {
                    let result = complete(completion, given);
                    self.settle_result(result)
                },
                None => self.stop(RuntimeError::BuiltinError(String::from_str("Falta la respuesta"))),
            },
            None => match self.tasks.pop() {
                Some(task) => {
                    assert(tasks_view(self.tasks@) =~= tasks_view(old(self).tasks@).drop_last());
                    self.run_task(task)
                },
                None => {
                    let value = match self.values.pop() {
                        Some(value) => value,
                        None => VaderValue::Null,
                    };
                    self.values = Vec::new();
                    assert(values_view(self.values@) =~= Seq::<ValueView>::empty());
                    Action::Finished(Ok(value))
                },
            },
        }
    }

    fn push_value(&mut self, value: VaderValue)
        ensures
            final(self)@ == with_value(old(self)@, value@),
    {
        self.values.push(value);
        assert(values_view(self.values@) =~= values_view(old(self).values@).push(value@));
    }

    fn push_task(&mut self, task: Task)
        ensures
            final(self)@ == with_task(old(self)@, task@),
    {
        self.tasks.push(task);
        assert(tasks_view(self.tasks@) =~= tasks_view(old(self).tasks@).push(task@));
    }

    /// Takes the `count` top values off.
    fn pop_values(&mut self, count: usize) -> (top: Vec<VaderValue>)
        requires
            count <= old(self)@.values.len(),
        ensures
            final(self)@ == without_values(old(self)@, count as int),
            values_view(top@) == top_values(old(self)@, count as int),
            top@.len() == count,
    {
        let at: usize = self.values.len() - count;
        let top = self.values.split_off(at);
        assert(values_view(self.values@) =~= values_view(old(self).values@).subrange(0, at as int));
        assert(values_view(top@) =~= values_view(old(self).values@).subrange(
            at as int,
            old(self).values@.len() as int,
        ));
        top
    }

    /// Takes the top value off.
    fn pop_value(&mut self) -> (value: VaderValue)
        requires
            old(self)@.values.len() >= 1,
        ensures
            final(self)@ == without_values(old(self)@, 1),
            value@ == old(self)@.values.last(),
    {
        match self.values.pop() {
            Some(value) => {
                assert(values_view(self.values@) =~= values_view(old(self).values@).subrange(
                    0,
                    old(self).values@.len() - 1,
                ));
                value
            },
            None => VaderValue::Null,
        }
    }

    /// The number of values.
    fn depth(&self) -> (depth: usize)
        ensures
            depth == self@.values.len(),
    {
        self.values.len()
    }

    /// Ends the program with an error.
    fn stop(&mut self, error: RuntimeError) -> (action: Action)
        ensures
            (final(self)@, action@) == stop(old(self)@, error@),
    {
        self.tasks = Vec::new();
        self.values = Vec::new();
        self.waiting = None;
        assert(tasks_view(self.tasks@) =~= Seq::<TaskView>::empty());
        assert(values_view(self.values@) =~= Seq::<ValueView>::empty());
        Action::Finished(Err(error))
    }

    /// Takes a result: pushes a value, or sends a request.
    fn settle(&mut self, computed: Computed) -> (action: Action)
        ensures
            (final(self)@, action@) == settle(old(self)@, computed@),
    {
        match computed {
            Computed::Value(value) => {
                self.push_value(value);
                Action::Continue
            },
            Computed::Pending { request, completion } => {
                self.waiting = Some(completion);
                Action::Request(request)
            },
        }
    }

    fn settle_result(&mut self, result: Result<Computed, RuntimeError>) -> (action: Action)
        ensures
            match result {
                Ok(computed) => (final(self)@, action@) == settle(old(self)@, computed@),
                Err(error) => (final(self)@, action@) == stop(old(self)@, error@),
            },
    {
        match result {
            Ok(computed) => self.settle(computed),
            Err(error) => self.stop(error),
        }
    }

    fn value_result(&mut self, result: Result<VaderValue, RuntimeError>) -> (action: Action)
        ensures
            match result {
                Ok(value) => (final(self)@, action@) == go(with_value(old(self)@, value@)),
                Err(error) => (final(self)@, action@) == stop(old(self)@, error@),
            },
    {
        match result {
            Ok(value) => {
                self.push_value(value);
                Action::Continue
            },
            Err(error) => self.stop(error),
        }
    }

    /// Binds a name in the innermost frame.
    fn bind(&mut self, name: String, value: VaderValue)
        ensures
            final(self)@ == (MachineView {
                environment: bound(old(self)@.environment, name@, value@),
                ..old(self)@
            }),
    {
        self.environment.set(name, value);
    }

    /// Whether a condition with this value holds.
    fn is_truthy(&self, value: &VaderValue) -> (truth: bool)
        ensures
            truth == truthy(value@),
    {
        value.is_truthy()
    }

    /// Pushes the tasks that evaluate the expressions, the first on top.
    #[verifier::loop_isolation(false)]
    fn push_evaluations(&mut self, nodes: Vec<AstNode>)
        ensures
            final(self)@ == with_tasks(
                old(self)@,
                evaluations(nodes_view(nodes@), nodes@.len() as nat),
            ),
    {
        let mut rest = nodes;
        let ghost all = nodes_view(nodes@);
        assert(self@.tasks =~= old(self)@.tasks + evaluations(all, 0));
        while rest.len() > 0
            invariant
                rest@.len() <= all.len(),
                nodes_view(rest@) =~= all.subrange(0, rest@.len() as int),
                self@ == with_tasks(old(self)@, evaluations(all, (all.len() - rest@.len()) as nat)),
            decreases rest@.len(),
        {
            let ghost previous = rest@;
            let ghost left = rest@.len();
            match rest.pop() {
                Some(node) => {
                    assert(nodes_view(previous)[left - 1] == all.subrange(0, left as int)[left - 1]);
                    assert(node@ == all[left - 1]);
                    self.push_task(Task::Evaluate { node });
                    assert(self@.tasks =~= old(self)@.tasks + evaluations(
                        all,
                        (all.len() - rest@.len()) as nat,
                    ));
                },
                None => {},
            }
        }
    }

    /// Pushes the tasks that evaluate the pairs, the first pair on top.
    #[verifier::loop_isolation(false)]
    fn push_pair_evaluations(&mut self, pairs: Vec<(AstNode, AstNode)>)
        ensures
            final(self)@ == with_tasks(
                old(self)@,
                pair_evaluations(crate::parser::pairs_view(pairs@), pairs@.len() as nat),
            ),
    {
        let mut rest = pairs;
        let ghost all = crate::parser::pairs_view(pairs@);
        assert(self@.tasks =~= old(self)@.tasks + pair_evaluations(all, 0));
        while rest.len() > 0
            invariant
                rest@.len() <= all.len(),
                crate::parser::pairs_view(rest@) =~= all.subrange(0, rest@.len() as int),
                self@ == with_tasks(
                    old(self)@,
                    pair_evaluations(all, (all.len() - rest@.len()) as nat),
                ),
            decreases rest@.len(),
        {
            let ghost previous = rest@;
            let ghost left = rest@.len();
            match rest.pop() {
                Some(pair) => {
                    assert(crate::parser::pairs_view(previous)[left - 1] == all.subrange(
                        0,
                        left as int,
                    )[left - 1]);
                    assert(pair.0@ == all[left - 1].0);
                    assert(pair.1@ == all[left - 1].1);
                    let (key, value) = pair;
                    self.push_task(Task::Evaluate { node: value });
                    self.push_task(Task::KeyText);
                    self.push_task(Task::Evaluate { node: key });
                    assert(self@.tasks =~= old(self)@.tasks + pair_evaluations(
                        all,
                        (all.len() - rest@.len()) as nat,
                    ));
                },
                None => {},
            }
        }
    }

    /// Takes up an expression.
    fn evaluate_expression(&mut self, node: AstNode) -> (action: Action)
        ensures
            (final(self)@, action@) == evaluate(old(self)@, node@),
    {
        proof {
            lemma_node_view(node);
        }
        match node {
            AstNode::Literal { value } => {
                self.push_value(value);
                Action::Continue
            },
            AstNode::Variable { name } => {
                match self.environment.get(name.as_str()) {
                    Some(value) => {
                        self.push_value(value);
                        Action::Continue
                    },
                    None => self.stop(RuntimeError::UndefinedVariable(name)),
                }
            },
            AstNode::BinaryOp { left, operator, right } => {
                self.push_task(Task::AfterLeft { operator, right: *right });
                self.push_task(Task::Evaluate { node: *left });
                Action::Continue
            },
            AstNode::UnaryOp { operator, operand } => {
                self.push_task(Task::ApplyUnary { operator });
                self.push_task(Task::Evaluate { node: *operand });
                Action::Continue
            },
            AstNode::FunctionCall { name, args } => {
                self.push_task(Task::Call { name, count: args.len() });
                self.push_evaluations(args);
                Action::Continue
            },
            AstNode::List { elements } => {
                self.push_task(Task::MakeList { count: elements.len() });
                self.push_evaluations(elements);
                Action::Continue
            },
            AstNode::Dict { pairs } => {
                self.push_task(Task::MakeDict { count: pairs.len() });
                self.push_pair_evaluations(pairs);
                Action::Continue
            },
            AstNode::Index { object, index } => {
                self.push_task(Task::ApplyIndex);
                self.push_task(Task::Evaluate { node: *index });
                self.push_task(Task::Evaluate { node: *object });
                Action::Continue
            },
            AstNode::MemberAccess { object, member } => {
                self.push_task(Task::ApplyMember { member });
                self.push_task(Task::Evaluate { node: *object });
                Action::Continue
            },
            _ => self.stop(RuntimeError::InvalidExpression),
        }
    }

    /// Takes up a statement.
    fn execute_statement(&mut self, node: AstNode) -> (action: Action)
        ensures
            (final(self)@, action@) == execute(old(self)@, node@),
    {
        proof {
            lemma_node_view(node);
        }
        match node {
            AstNode::Assignment { name, value } => {
                self.push_task(Task::Assign { name });
                self.push_task(Task::Evaluate { node: *value });
                Action::Continue
            },
            AstNode::If { condition, then_branch, else_branch } => {
                self.push_task(Task::Branch { then_branch, else_branch });
                self.push_task(Task::Evaluate { node: *condition });
                Action::Continue
            },
            AstNode::While { condition, body } => {
                self.push_value(VaderValue::Null);
                self.push_task(Task::WhileTest { condition: *condition, body });
                Action::Continue
            },
            AstNode::For { variable, iterable, body } => {
                self.push_task(Task::ForStart { variable, body });
                self.push_task(Task::Evaluate { node: *iterable });
                Action::Continue
            },
            AstNode::FunctionDef { name, params, body } => {
                let function = VaderValue::Function {
                    name: name.clone(),
                    params: copy_strings(&params),
                    body: copy_nodes(&body),
                };
                let bound_function = VaderValue::Function { name: name.clone(), params, body };
                proof {
                    lemma_value_view(function);
                    lemma_value_view(bound_function);
                }
                self.bind(name, bound_function);
                self.push_value(function);
                Action::Continue
            },
            AstNode::Return { value } => {
                match value {
                    Some(inner) => {
                        self.push_task(Task::ReturnWith);
                        self.push_task(Task::Evaluate { node: *inner });
                        Action::Continue
                    },
                    None => {
                        self.return_value = Some(VaderValue::Null);
                        self.push_value(VaderValue::Null);
                        Action::Continue
                    },
                }
            },
            AstNode::Block { statements } => {
                self.push_task(Task::Sequence { scope: Scope::Block, statements, next: 0 });
                Action::Continue
            },
            other => self.evaluate_expression(other),
        }
    }

    /// Ends a sequence of statements.
    fn end_sequence(&mut self, scope: Scope) -> (action: Action)
        ensures
            (final(self)@, action@) == ended(old(self)@, scope),
    {
        if self.values.len() == 0 {
            return self.stop(RuntimeError::InvalidExpression);
        }
        match scope {
            Scope::Block => {},
            _ => {
                match self.return_value.take() {
                    Some(value) => {
                        let ghost before = values_view(self.values@);
                        self.values.pop();
                        self.values.push(value);
                        assert(values_view(self.values@) =~= before.drop_last().push(value@));
                    },
                    None => {},
                }
            },
        }
        match scope {
            Scope::Body => {
                let mut inner = Environment::new();
                core::mem::swap(&mut self.environment, &mut inner);
                self.environment = inner.leave();
            },
            _ => {},
        }
        Action::Continue
    }

    /// Goes on with a sequence of statements.
    fn execute_block(
        &mut self,
        scope: Scope,
        statements: Vec<AstNode>,
        next: usize,
    ) -> (action: Action)
        ensures
            (final(self)@, action@) == sequence(old(self)@, scope, nodes_view(statements@), next),
    {
        if next == 0 {
            if statements.len() == 0 {
                self.push_value(VaderValue::Null);
                self.end_sequence(scope)
            } else {
                let first = statements[0].copy();
                self.push_task(Task::Sequence { scope, statements, next: 1 });
                self.push_task(Task::Execute { node: first });
                Action::Continue
            }
        } else if self.return_value.is_some() || next >= statements.len() {
            self.end_sequence(scope)
        } else if self.values.len() == 0 {
            self.stop(RuntimeError::InvalidExpression)
        } else {
            self.pop_value();
            let following = statements[next].copy();
            self.push_task(Task::Sequence { scope, statements, next: next + 1 });
            self.push_task(Task::Execute { node: following });
            Action::Continue
        }
    }

    /// Calls a function of the program.
    #[verifier::loop_isolation(false)]
    fn call_user_function(
        &mut self,
        params: Vec<String>,
        body: Vec<AstNode>,
        arguments: Vec<VaderValue>,
    ) -> (action: Action)
        ensures
            (final(self)@, action@) == user_call(
                old(self)@,
                strings_view(params@),
                nodes_view(body@),
                values_view(arguments@),
            ),
    {
        if params.len() != arguments.len() {
            return self.stop(
                RuntimeError::WrongArgumentCount { expected: params.len(), actual: arguments.len() },
            );
        }
        let mut outer = Environment::new();
        core::mem::swap(&mut self.environment, &mut outer);
        self.environment = Environment::with_parent(outer);
        let mut at: usize = 0;
        while at < params.len()
            invariant
                at <= params.len(),
                params.len() == arguments.len(),
                self@ == (MachineView {
                    environment: bound_all(
                        entered(old(self)@.environment),
                        strings_view(params@),
                        values_view(arguments@),
                        at as nat,
                    ),
                    ..old(self)@
                }),
            decreases params.len() - at,
        {
            self.bind(params[at].clone(), arguments[at].copy());
            at = at + 1;
        }
        self.push_task(Task::Sequence { scope: Scope::Body, statements: body, next: 0 });
        Action::Continue
    }

    /// Calls the function with a name: the builtin of that name if there
    /// is one, and else the function that the name is bound to.
    fn call_function(&mut self, name: String, arguments: Vec<VaderValue>) -> (action: Action)
        ensures
            (final(self)@, action@) == call(old(self)@, name@, values_view(arguments@)),
    {
        match self.stdlib.get_function(name.as_str()) {
            Some(builtin) => {
                match builtin.call(&arguments) {
                    Ok(computed) => self.settle(computed),
                    Err(message) => self.stop(RuntimeError::BuiltinError(message)),
                }
            },
            None => {
                match self.environment.get(name.as_str()) {
                    Some(VaderValue::Function { name: defined, params, body }) => {
                        proof {
                            lemma_value_view(VaderValue::Function { name: defined, params, body });
                        }
                        self.call_user_function(params, body, arguments)
                    },
                    _ => self.stop(RuntimeError::UndefinedFunction(name)),
                }
            },
        }
    }

    /// The entries that the pairs of a key and a value in `flat` make.
    #[verifier::loop_isolation(false)]
    fn pair_up(flat: &Vec<VaderValue>, count: usize) -> (entries: Option<Vec<(String, VaderValue)>>)
        requires
            2 * count <= flat@.len(),
        ensures
            match entries {
                Some(made) => paired(values_view(flat@), count as nat) == Some(entries_view(made@)),
                None => paired(values_view(flat@), count as nat) is None,
            },
    {
        let mut entries: Vec<(String, VaderValue)> = Vec::new();
        let mut done: usize = 0;
        let length: usize = flat.len();
        assert(entries_view(entries@) =~= Seq::<(Seq<char>, ValueView)>::empty());
        while done < count
            invariant
                done <= count,
                2 * count <= length,
                length == flat@.len(),
                paired(values_view(flat@), done as nat) == Some(entries_view(entries@)),
            decreases count - done,
        {
            match &flat[2 * done] {
                VaderValue::String(key) => {
                    put_entry(&mut entries, key.clone(), flat[2 * done + 1].copy());
                },
                _ => {
                    proof {
                        lemma_paired_fails(values_view(flat@), (done + 1) as nat, count as nat);
                    }
                    return None;
                },
            }
            done = done + 1;
        }
        Some(entries)
    }

    /// Binds the name to the value on top.
    fn run_assign(&mut self, name: String) -> (action: Action)
        ensures
            (final(self)@, action@) == run(old(self)@, (TaskView::Assign { name: name@ })),
    {
        if self.depth() < 1 {
            return self.stop(RuntimeError::InvalidExpression);
        }
        let value = self.values[self.values.len() - 1].copy();
        self.bind(name, value);
        Action::Continue
    
    }

    /// Runs one of the branches, by the condition on top.
    fn run_branch(
        &mut self,
        then_branch: Vec<AstNode>,
        else_branch: Option<Vec<AstNode>>,
    ) -> (action: Action)
        ensures
            (final(self)@, action@) == run(
                old(self)@,
                (TaskView::Branch {
                    then_branch: nodes_view(then_branch@),
                    else_branch: crate::parser::branch_view(else_branch),
                }),
            ),
    {
        if self.depth() < 1 {
            return self.stop(RuntimeError::InvalidExpression);
        }
        let condition = self.pop_value();
        if self.is_truthy(&condition) {
            self.push_task(
                Task::Sequence { scope: Scope::Block, statements: then_branch, next: 0 },
            );
        } else {
            match else_branch {
                Some(statements) => {
                    self.push_task(
                        Task::Sequence { scope: Scope::Block, statements, next: 0 },
                    );
                },
                None => {
                    self.push_value(VaderValue::Null);
                },
            }
        }
        Action::Continue
    
    }

    /// Evaluates the condition of a loop, unless a return is pending.
    fn run_while_test(&mut self, condition: AstNode, body: Vec<AstNode>) -> (action: Action)
        ensures
            (final(self)@, action@) == run(
                old(self)@,
                (TaskView::WhileTest {
                    condition: condition@,
                    body: nodes_view(body@),
                }),
            ),
    {
        if self.return_value.is_some() {
            return Action::Continue;
        }
        let again = condition.copy();
        self.push_task(Task::WhileCheck { condition, body });
        self.push_task(Task::Evaluate { node: again });
        Action::Continue
    
    }

    /// Runs the body of a loop once more if the condition on top holds.
    fn run_while_check(&mut self, condition: AstNode, body: Vec<AstNode>) -> (action: Action)
        ensures
            (final(self)@, action@) == run(
                old(self)@,
                (TaskView::WhileCheck {
                    condition: condition@,
                    body: nodes_view(body@),
                }),
            ),
    {
        if self.depth() < 2 {
            return self.stop(RuntimeError::InvalidExpression);
        }
        let holds = self.pop_value();
        if self.is_truthy(&holds) {
            self.pop_value();
            assert(self@.values =~= without_values(old(self)@, 2).values);
            let statements = copy_nodes(&body);
            self.push_task(Task::WhileTest { condition, body });
            self.push_task(Task::Sequence { scope: Scope::Block, statements, next: 0 });
        }
        Action::Continue
    
    }

    /// Starts a loop over the value on top.
    fn run_for_start(&mut self, variable: String, body: Vec<AstNode>) -> (action: Action)
        ensures
            (final(self)@, action@) == run(
                old(self)@,
                (TaskView::ForStart {
                    variable: variable@,
                    body: nodes_view(body@),
                }),
            ),
    {
        if self.depth() < 1 {
            return self.stop(RuntimeError::InvalidExpression);
        }
        let ghost top = self@.values.last();
        let is_list = match &self.values[self.values.len() - 1] {
            VaderValue::List(_) => true,
            VaderValue::Range { .. } => true,
            _ => false,
        };
        if !is_list {
            return self.stop(RuntimeError::TypeError(String::from_str("Objeto no iterable")));
        }
        let iterable = self.pop_value();
        proof {
            lemma_value_view(iterable);
        }
        self.push_value(VaderValue::Null);
        match iterable {
            VaderValue::List(items) => {
                self.push_task(Task::ForList { variable, items, next: 0, body });
            },
            VaderValue::Range { start, end, step } => {
                self.push_task(
                    Task::ForRange {
                        variable,
                        current: start,
                        step,
                        left: count_range(start, end, step),
                        body,
                    },
                );
            },
            _ => {},
        }
        Action::Continue
    
    }

    /// Runs the body of a loop for the next item.
    fn run_for_list(
        &mut self,
        variable: String,
        items: Vec<VaderValue>,
        next: usize,
        body: Vec<AstNode>,
    ) -> (action: Action)
        ensures
            (final(self)@, action@) == run(
                old(self)@,
                (TaskView::ForList {
                    variable: variable@,
                    items: values_view(items@),
                    next,
                    body: nodes_view(body@),
                }),
            ),
    {
        if self.return_value.is_some() || next >= items.len() {
            return Action::Continue;
        }
        if self.depth() < 1 {
            return self.stop(RuntimeError::InvalidExpression);
        }
        self.pop_value();
        self.bind(variable.clone(), items[next].copy());
        let statements = copy_nodes(&body);
        self.push_task(Task::ForList { variable, items, next: next + 1, body });
        self.push_task(Task::Sequence { scope: Scope::Block, statements, next: 0 });
        Action::Continue
    
    }

    /// Runs the body of a loop for the next value of a range.
    fn run_for_range(
        &mut self,
        variable: String,
        current: i64,
        step: i64,
        left: u64,
        body: Vec<AstNode>,
    ) -> (action: Action)
        ensures
            (final(self)@, action@) == run(
                old(self)@,
                (TaskView::ForRange {
                    variable: variable@,
                    current,
                    step,
                    left,
                    body: nodes_view(body@),
                }),
            ),
    {
        if self.return_value.is_some() || left == 0 {
            return Action::Continue;
        }
        if self.depth() < 1 {
            return self.stop(RuntimeError::InvalidExpression);
        }
        self.pop_value();
        self.bind(variable.clone(), VaderValue::Number(crate::number::from_i64(current)));
        let statements = copy_nodes(&body);
        let following: i64 = if left > 1 {
            match current.checked_add(step) {
                Some(sum) => sum,
                None => current,
            }
        } else {
            current
        };
        self.push_task(
            Task::ForRange { variable, current: following, step, left: left - 1, body },
        );
        self.push_task(Task::Sequence { scope: Scope::Block, statements, next: 0 });
        Action::Continue
    
    }

    /// Makes the value on top the pending return value.
    fn run_return_with(&mut self) -> (action: Action)
        ensures
            (final(self)@, action@) == run(old(self)@, TaskView::ReturnWith),
    {
        if self.depth() < 1 {
            return self.stop(RuntimeError::InvalidExpression);
        }
        self.return_value = Some(self.values[self.values.len() - 1].copy());
        Action::Continue
    
    }

    /// Decides by the left operand whether the right one is needed.
    fn run_after_left(&mut self, operator: String, right: AstNode) -> (action: Action)
        ensures
            (final(self)@, action@) == run(
                old(self)@,
                (TaskView::AfterLeft {
                    operator: operator@,
                    right: right@,
                }),
            ),
    {
        if self.depth() < 1 {
            return self.stop(RuntimeError::InvalidExpression);
        }
        let is_and = is_word(&operator, "y") || is_word(&operator, "and");
        let is_or = is_word(&operator, "o") || is_word(&operator, "or");
        if is_and || is_or {
            let left = self.pop_value();
            let holds = self.is_truthy(&left);
            if holds == is_and {
                self.push_task(Task::ToBoolean);
                self.push_task(Task::Evaluate { node: right });
            } else {
                self.push_value(VaderValue::Boolean(holds));
            }
        } else {
            self.push_task(Task::Apply { operator });
            self.push_task(Task::Evaluate { node: right });
        }
        Action::Continue
    
    }

    /// Replaces the value on top by whether it holds as a condition.
    fn run_to_boolean(&mut self) -> (action: Action)
        ensures
            (final(self)@, action@) == run(old(self)@, TaskView::ToBoolean),
    {
        if self.depth() < 1 {
            return self.stop(RuntimeError::InvalidExpression);
        }
        let value = self.pop_value();
        self.push_value(VaderValue::Boolean(self.is_truthy(&value)));
        Action::Continue
    
    }

    /// Applies a binary operator to the two values on top.
    fn run_apply(&mut self, operator: String) -> (action: Action)
        ensures
            (final(self)@, action@) == run(old(self)@, (TaskView::Apply { operator: operator@ })),
    {
        if self.depth() < 2 {
            return self.stop(RuntimeError::InvalidExpression);
        }
        let operands = self.pop_values(2);
        assert(values_view(operands@)[0] == operands@[0]@);
        assert(values_view(operands@)[1] == operands@[1]@);
        let result = apply_binary(&operator, &operands[0], &operands[1]);
        self.settle_result(result)
    
    }

    /// Applies a unary operator to the value on top.
    fn run_apply_unary(&mut self, operator: String) -> (action: Action)
        ensures
            (final(self)@, action@) == run(
                old(self)@,
                (TaskView::ApplyUnary {
                    operator: operator@,
                }),
            ),
    {
        if self.depth() < 1 {
            return self.stop(RuntimeError::InvalidExpression);
        }
        let operand = self.pop_value();
        let result = apply_unary(&operator, &operand);
        self.value_result(result)
    
    }

    /// Calls a function with the values on top.
    fn run_call(&mut self, name: String, count: usize) -> (action: Action)
        ensures
            (final(self)@, action@) == run(old(self)@, (TaskView::Call { name: name@, count })),
    {
        if self.depth() < count {
            return self.stop(RuntimeError::InvalidExpression);
        }
        let arguments = self.pop_values(count);
        self.call_function(name, arguments)
    
    }

    /// Makes a list of the values on top.
    fn run_make_list(&mut self, count: usize) -> (action: Action)
        ensures
            (final(self)@, action@) == run(old(self)@, (TaskView::MakeList { count })),
    {
        if self.depth() < count {
            return self.stop(RuntimeError::InvalidExpression);
        }
        let items = self.pop_values(count);
        let list = VaderValue::List(items);
        proof {
            lemma_value_view(list);
        }
        self.push_value(list);
        Action::Continue
    
    }

    /// Replaces the value on top by the string of its display form.
    fn run_key_text(&mut self) -> (action: Action)
        ensures
            (final(self)@, action@) == run(old(self)@, TaskView::KeyText),
    {
        if self.depth() < 1 {
            return self.stop(RuntimeError::InvalidExpression);
        }
        let is_text = match &self.values[self.values.len() - 1] {
            VaderValue::String(_) => true,
            _ => false,
        };
        if is_text {
            return Action::Continue;
        }
        let key = self.pop_value();
        self.settle(crate::types::text_of_pieces(key.to_string()))
    
    }

    /// Makes a dictionary of the pairs on top.
    fn run_make_dict(&mut self, count: usize) -> (action: Action)
        ensures
            (final(self)@, action@) == run(old(self)@, (TaskView::MakeDict { count })),
    {
        if self.depth() / 2 < count {
            return self.stop(RuntimeError::InvalidExpression);
        }
        let made = Self::pair_up_top(&self.values, count);
        match made {
            Some(entries) => {
                self.pop_values(2 * count);
                let dict = VaderValue::Dict(entries);
                proof {
                    lemma_value_view(dict);
                }
                self.push_value(dict);
                Action::Continue
            },
            None => self.stop(RuntimeError::InvalidExpression),
        }
    
    }

    /// Indexes the value below the top by the value on top.
    fn run_apply_index(&mut self) -> (action: Action)
        ensures
            (final(self)@, action@) == run(old(self)@, TaskView::ApplyIndex),
    {
        if self.depth() < 2 {
            return self.stop(RuntimeError::InvalidExpression);
        }
        let operands = self.pop_values(2);
        assert(values_view(operands@)[0] == operands@[0]@);
        assert(values_view(operands@)[1] == operands@[1]@);
        let result = lift_value(operands[0].index(&operands[1]));
        self.value_result(result)
    
    }

    /// Reads a member of the value on top.
    fn run_apply_member(&mut self, member: String) -> (action: Action)
        ensures
            (final(self)@, action@) == run(old(self)@, (TaskView::ApplyMember { member: member@ })),
    {
        if self.depth() < 1 {
            return self.stop(RuntimeError::InvalidExpression);
        }
        let object = self.pop_value();
        let result = lift_value(object.get_member(member.as_str()));
        self.value_result(result)
    
    }

    /// Does a task.
    fn run_task(&mut self, task: Task) -> (action: Action)
        ensures
            (final(self)@, action@) == run(old(self)@, task@),
    {
        match task {
            Task::Execute { node } => self.execute_statement(node),
            Task::Evaluate { node } => self.evaluate_expression(node),
            Task::Sequence { scope, statements, next } => self.execute_block(scope, statements, next),
            Task::Assign { name } => self.run_assign(name),
            Task::Branch { then_branch, else_branch } => self.run_branch(then_branch, else_branch),
            Task::WhileTest { condition, body } => self.run_while_test(condition, body),
            Task::WhileCheck { condition, body } => self.run_while_check(condition, body),
            Task::ForStart { variable, body } => self.run_for_start(variable, body),
            Task::ForList { variable, items, next, body } => self.run_for_list(variable, items, next, body),
            Task::ForRange { variable, current, step, left, body } => self.run_for_range(variable, current, step, left, body),
            Task::ReturnWith => self.run_return_with(),
            Task::AfterLeft { operator, right } => self.run_after_left(operator, right),
            Task::ToBoolean => self.run_to_boolean(),
            Task::Apply { operator } => self.run_apply(operator),
            Task::ApplyUnary { operator } => self.run_apply_unary(operator),
            Task::Call { name, count } => self.run_call(name, count),
            Task::MakeList { count } => self.run_make_list(count),
            Task::KeyText => self.run_key_text(),
            Task::MakeDict { count } => self.run_make_dict(count),
            Task::ApplyIndex => self.run_apply_index(),
            Task::ApplyMember { member } => self.run_apply_member(member),
        }
    }

    /// The entries that the `count` pairs on top of the values make.
    #[verifier::loop_isolation(false)]
    fn pair_up_top(values: &Vec<VaderValue>, count: usize) -> (entries: Option<
        Vec<(String, VaderValue)>,
    >)
        requires
            2 * count <= values@.len(),
        ensures
            match entries {
                Some(made) => paired(
                    values_view(values@).subrange(
                        values@.len() - 2 * count,
                        values@.len() as int,
                    ),
                    count as nat,
                ) == Some(entries_view(made@)),
                None => paired(
                    values_view(values@).subrange(
                        values@.len() - 2 * count,
                        values@.len() as int,
                    ),
                    count as nat,
                ) is None,
            },
    {
        let mut flat: Vec<VaderValue> = Vec::new();
        let base: usize = values.len() - 2 * count;
        let mut at: usize = base;
        while at < values.len()
            invariant
                base <= at <= values.len(),
                values_view(flat@) =~= values_view(values@).subrange(base as int, at as int),
            decreases values.len() - at,
        {
            flat.push(values[at].copy());
            at = at + 1;
        }
        Self::pair_up(&flat, count)
    }
}

/// Once a key is no string, no longer sequence of pairs has entries.
pub proof fn lemma_paired_fails(flat: Seq<ValueView>, failed: nat, count: nat)
    requires
        1 <= failed <= count,
        paired(flat, failed) is None,
    ensures
        paired(flat, count) is None,
    decreases count,
{
    if failed < count {
        lemma_paired_fails(flat, failed, (count - 1) as nat);
    }
}

impl Default for VaderInterpreter {
    fn default() -> (interpreter: Self)
        ensures
            interpreter@ == (MachineView {
                environment: EnvironmentView { variables: Seq::empty(), parent: None },
                builtins: crate::stdlib::standard_table(),
                return_value: None,
                tasks: Seq::empty(),
                values: Seq::empty(),
                waiting: None,
            }),
    {
        Self::new()
    }
}

/// The keys of a dictionary that is made of pairs are distinct.
pub proof fn lemma_paired_keys_are_distinct(flat: Seq<ValueView>, count: nat)
    ensures
        paired(flat, count) matches Some(entries) ==> crate::types::distinct_keys(entries),
    decreases count,
{
    if count > 0 && 2 * count <= flat.len() {
        lemma_paired_keys_are_distinct(flat, (count - 1) as nat);
        match (paired(flat, (count - 1) as nat), flat[2 * count - 2]) {
            (Some(entries), ValueView::String(key)) => {
                crate::types::lemma_with_entry(entries, key, flat[2 * count - 1]);
            },
            _ => {},
        }
    }
}

} // verus!

verus! {

/// The next state and the action are a function of the state and the
/// answer: two machines in the same state, given the same answer, take the
/// same step.
pub proof fn lemma_step_is_deterministic(
    first: MachineView,
    second: MachineView,
    first_answer: Option<AnswerView>,
    second_answer: Option<AnswerView>,
)
    requires
        first == second,
        first_answer == second_answer,
    ensures
        step(first, first_answer) == step(second, second_answer),
{
}

/// A name that a builtin has calls the builtin, whatever the program has
/// bound to it.
pub proof fn lemma_builtin_wins(
    machine: MachineView,
    bindings: EnvironmentView,
    name: Seq<char>,
    arguments: Seq<ValueView>,
)
    requires
        named(machine.builtins, name, 0) is Some,
    ensures
        call(MachineView { environment: bindings, ..machine }, name, arguments) == settle_result(
            MachineView { environment: bindings, ..machine },
            builtin_result(called(named(machine.builtins, name, 0)->0, arguments)),
        ),
        call(MachineView { environment: bindings, ..machine }, name, arguments).1 == call(
            machine,
            name,
            arguments,
        ).1,
{
}

/// A call runs the body in a frame of its own, and the end of the body
/// gives the caller's frame back: what the body binds does not reach the
/// caller.
pub proof fn lemma_call_keeps_callers_frame(
    machine: MachineView,
    params: Seq<Seq<char>>,
    body: Seq<NodeView>,
    arguments: Seq<ValueView>,
    name: Seq<char>,
    value: ValueView,
)
    requires
        params.len() == arguments.len(),
    ensures
        left(user_call(machine, params, body, arguments).0.environment) == machine.environment,
        left(bound(user_call(machine, params, body, arguments).0.environment, name, value))
            == machine.environment,
        machine.values.len() > 0 ==> ended(machine, Scope::Body).0.environment == left(
            machine.environment,
        ),
{
    lemma_frames_do_not_leak(machine.environment, params, arguments, params.len());
}

/// Whatever a step does to the bindings, it does to the innermost frame
/// or by entering or leaving a frame: a statement never changes a frame
/// around the innermost one.
pub proof fn lemma_binding_is_local(environment: EnvironmentView, name: Seq<char>, value: ValueView)
    ensures
        bound(environment, name, value).parent == environment.parent,
{
}

/// No operator is both the logical `and` and the logical `or`.
pub proof fn lemma_and_is_not_or(operator: Seq<char>)
    ensures
        !(is_and(operator) && is_or(operator)),
{
    reveal_strlit("y");
    reveal_strlit("and");
    reveal_strlit("o");
    reveal_strlit("or");
    if is_and(operator) && is_or(operator) {
        assert(operator.len() > 0);
        assert(operator[0] == 'y' || operator[0] == 'a');
        assert(operator[0] == 'o');
    }
}

/// `A or B` with a true `A` is true, and `B` is not evaluated: no task for
/// it is added. `A and B` with a false `A` is false in the same way.
pub proof fn lemma_short_circuit(machine: MachineView, operator: Seq<char>, right: NodeView)
    requires
        machine.values.len() > 0,
    ensures
        is_or(operator) && truthy(machine.values.last()) ==> run(
            machine,
            TaskView::AfterLeft { operator, right },
        ) == go(with_value(without_values(machine, 1), ValueView::Boolean(true))),
        is_and(operator) && !truthy(machine.values.last()) ==> run(
            machine,
            TaskView::AfterLeft { operator, right },
        ) == go(with_value(without_values(machine, 1), ValueView::Boolean(false))),
        (is_or(operator) && truthy(machine.values.last())) || (is_and(operator) && !truthy(
            machine.values.last(),
        )) ==> run(machine, TaskView::AfterLeft { operator, right }).0.tasks == machine.tasks,
{
    lemma_and_is_not_or(operator);
}

/// How a step may change the bindings: not at all, by a binding in the
/// innermost frame, by entering a frame around which the frames are as
/// they were, or by leaving the innermost frame.
pub open spec fn keeps_outer_frames(before: EnvironmentView, after: EnvironmentView) -> bool {
    ||| after == before
    ||| after.parent == before.parent
    ||| after.parent == Some(Box::new(before))
    ||| after == left(before)
}

/// No step changes a frame around the innermost one: what a function binds
/// is bound in its own frame, which its end leaves.
pub proof fn lemma_steps_keep_outer_frames(machine: MachineView, answer: Option<AnswerView>)
    ensures
        keeps_outer_frames(machine.environment, step(machine, answer).0.environment),
{
    match machine.waiting {
        Some(completion) => {
            match answer {
                Some(given) => {
                    lemma_settling_keeps_frames(
                        MachineView { waiting: None, ..machine },
                        completed(completion, given),
                    );
                },
                None => {},
            }
        },
        None => {
            if machine.tasks.len() > 0 {
                lemma_tasks_keep_outer_frames(
                    MachineView { tasks: machine.tasks.drop_last(), ..machine },
                    machine.tasks.last(),
                );
            }
        },
    }
}

/// A result that arrives leaves the bindings as they are.
pub proof fn lemma_settling_keeps_frames(
    machine: MachineView,
    result: Result<ComputedView, RuntimeErrorView>,
)
    ensures
        settle_result(machine, result).0.environment == machine.environment,
{
}

/// No task changes a frame around the innermost one.
pub proof fn lemma_tasks_keep_outer_frames(machine: MachineView, task: TaskView)
    ensures
        keeps_outer_frames(machine.environment, run(machine, task).0.environment),
{
    match task {
        TaskView::Call { name, count } => {
            if machine.values.len() >= count {
                let inner = without_values(machine, count as int);
                let arguments = top_values(machine, count as int);
                match named(inner.builtins, name, 0) {
                    Some(builtin) => {},
                    None => match resolve(inner.environment, name) {
                        Some(ValueView::Function { name: defined, params, body }) => {
                            lemma_frames_do_not_leak(
                                inner.environment,
                                params,
                                arguments,
                                params.len(),
                            );
                        },
                        _ => {},
                    },
                }
            }
        },
        _ => {},
    }
}

/// A loop over a range runs its body once for each value that the range
/// visits: it starts with the count of the range, and each round binds the
/// variable to the next value and leaves one round less.
pub proof fn lemma_for_visits_range(
    machine: MachineView,
    variable: Seq<char>,
    body: Seq<NodeView>,
    current: i64,
    step: i64,
    rounds: u64,
)
    requires
        machine.values.len() > 0,
        machine.return_value is None,
    ensures
        machine.values.last() matches ValueView::Range { start, end, step: stride } ==> run(
            machine,
            TaskView::ForStart { variable, body },
        ).0.tasks.last() == (TaskView::ForRange {
            variable,
            current: start,
            step: stride,
            left: range_count(start as int, end as int, stride as int) as u64,
            body,
        }),
        rounds == 0 ==> run(
            machine,
            TaskView::ForRange { variable, current, step, left: rounds, body },
        ) == go(machine),
        rounds > 0 ==> ({
            let after = run(
                machine,
                TaskView::ForRange { variable, current, step, left: rounds, body },
            ).0;
            &&& after.environment == bound(
                machine.environment,
                variable,
                ValueView::Number(from_int(current as int) as u64),
            )
            &&& after.tasks.len() == machine.tasks.len() + 2
            &&& after.tasks[machine.tasks.len() as int] matches TaskView::ForRange { left, .. }
                && left == rounds - 1
            &&& after.tasks.last() == (TaskView::Sequence {
                scope: Scope::Block,
                statements: body,
                next: 0,
            })
        }),
{
}

} // verus!

verus! {

/// Whether a task runs the body of a function.
pub open spec fn is_body(task: TaskView) -> bool {
    task matches TaskView::Sequence { scope, .. } && scope == Scope::Body
}

/// How many of the tasks run the body of a function.
pub open spec fn bodies(tasks: Seq<TaskView>) -> nat
    decreases tasks.len(),
{
    if tasks.len() == 0 {
        0
    } else {
        bodies(tasks.drop_last()) + if is_body(tasks.last()) {
            1nat
        } else {
            0nat
        }
    }
}

/// The environment `depth` frames around the innermost one.
pub open spec fn outer(environment: EnvironmentView, depth: nat) -> Option<EnvironmentView>
    decreases depth,
{
    if depth == 0 {
        Some(environment)
    } else {
        match environment.parent {
            Some(parent) => outer(*parent, (depth - 1) as nat),
            None => None,
        }
    }
}

/// Whether the tasks are those of `rest` and, above them, tasks of a call
/// and of what it calls, each body in a frame of its own inside the
/// caller's environment.
pub open spec fn held(
    tasks: Seq<TaskView>,
    environment: EnvironmentView,
    rest: Seq<TaskView>,
    caller: EnvironmentView,
) -> bool {
    &&& tasks.len() >= rest.len()
    &&& tasks.subrange(0, rest.len() as int) == rest
    &&& outer(environment, bodies(tasks.subrange(rest.len() as int, tasks.len() as int))) == Some(
        caller,
    )
}

/// Whether the machine is inside a call that was made with the tasks
/// `rest` still to do and the environment `caller`.
pub open spec fn inside(machine: MachineView, rest: Seq<TaskView>, caller: EnvironmentView) -> bool {
    &&& held(machine.tasks, machine.environment, rest, caller)
    &&& machine.tasks.len() > rest.len()
    &&& is_body(machine.tasks[rest.len() as int])
}

/// Whether the machine is inside the call still, or has just returned
/// from it to the caller's tasks and environment.
pub open spec fn inside_or_back(machine: MachineView, rest: Seq<TaskView>, caller: EnvironmentView) -> bool {
    inside(machine, rest, caller) || (machine.tasks == rest && machine.environment == caller)
}

proof fn lemma_bodies_push(tasks: Seq<TaskView>, task: TaskView)
    ensures
        bodies(tasks.push(task)) == bodies(tasks) + if is_body(task) {
            1nat
        } else {
            0nat
        },
{
    assert(tasks.push(task).drop_last() =~= tasks);
}

proof fn lemma_bodies_first(tasks: Seq<TaskView>)
    requires
        tasks.len() > 0,
        is_body(tasks[0]),
    ensures
        bodies(tasks) >= 1,
    decreases tasks.len(),
{
    if tasks.len() > 1 {
        lemma_bodies_first(tasks.drop_last());
    }
}

/// Tasks that are added on top keep what is held, as long as none of them
/// runs a body.
proof fn lemma_held_with(
    tasks: Seq<TaskView>,
    added: Seq<TaskView>,
    environment: EnvironmentView,
    rest: Seq<TaskView>,
    caller: EnvironmentView,
    depth: nat,
)
    requires
        tasks.len() >= rest.len(),
        tasks.subrange(0, rest.len() as int) == rest,
        outer(environment, depth) == Some(caller),
        bodies(tasks.subrange(rest.len() as int, tasks.len() as int) + added) == depth,
    ensures
        held(tasks + added, environment, rest, caller),
        tasks.len() > rest.len() ==> (tasks + added)[rest.len() as int] == tasks[rest.len() as int],
{
    let all = tasks + added;
    assert(all.subrange(0, rest.len() as int) =~= tasks.subrange(0, rest.len() as int));
    assert(all.subrange(rest.len() as int, all.len() as int) =~= tasks.subrange(
        rest.len() as int,
        tasks.len() as int,
    ) + added);
}

} // verus!

verus! {

/// Whether none of the tasks from `from` on runs a body.
pub open spec fn plain_above(tasks: Seq<TaskView>, from: int) -> bool {
    forall|i: int| from <= i < tasks.len() ==> !is_body(#[trigger] tasks[i])
}

proof fn lemma_bodies_plain(tasks: Seq<TaskView>, added: Seq<TaskView>)
    requires
        plain_above(added, 0),
    ensures
        bodies(tasks + added) == bodies(tasks),
    decreases added.len(),
{
    if added.len() == 0 {
        assert(tasks + added =~= tasks);
    } else {
        assert(tasks + added =~= (tasks + added.drop_last()).push(added.last()));
        lemma_bodies_push(tasks + added.drop_last(), added.last());
        assert(!is_body(added[added.len() - 1]));
        assert forall|i: int| 0 <= i < added.drop_last().len() implies !is_body(
            #[trigger] added.drop_last()[i],
        ) by {
            assert(!is_body(added[i]));
        }
        lemma_bodies_plain(tasks, added.drop_last());
    }
}

proof fn lemma_evaluations_plain(nodes: Seq<NodeView>, count: nat)
    ensures
        plain_above(evaluations(nodes, count), 0),
    decreases count,
{
    if !(count == 0 || count > nodes.len()) {
        lemma_evaluations_plain(nodes, (count - 1) as nat);
    }
}

proof fn lemma_pair_evaluations_plain(pairs: Seq<(NodeView, NodeView)>, count: nat)
    ensures
        plain_above(pair_evaluations(pairs, count), 0),
    decreases count,
{
    if !(count == 0 || count > pairs.len()) {
        lemma_pair_evaluations_plain(pairs, (count - 1) as nat);
    }
}

/// What a task leaves when it adds no task that runs a body and leaves
/// the frames around the innermost one: the machine is inside the call
/// as before.
proof fn lemma_plain_task(
    lower: Seq<TaskView>,
    before: EnvironmentView,
    after: MachineView,
    rest: Seq<TaskView>,
    caller: EnvironmentView,
)
    requires
        lower.len() > rest.len(),
        lower.subrange(0, rest.len() as int) == rest,
        is_body(lower[rest.len() as int]),
        outer(before, bodies(lower.subrange(rest.len() as int, lower.len() as int))) == Some(
            caller,
        ),
        after.tasks.len() >= lower.len(),
        after.tasks.subrange(0, lower.len() as int) == lower,
        plain_above(after.tasks, lower.len() as int),
        after.environment == before || after.environment.parent == before.parent,
    ensures
        inside(after, rest, caller),
{
    let upper = lower.subrange(rest.len() as int, lower.len() as int);
    let added = after.tasks.subrange(lower.len() as int, after.tasks.len() as int);
    assert(after.tasks =~= lower + added);
    assert forall|i: int| 0 <= i < added.len() implies !is_body(#[trigger] added[i]) by {
        assert(!is_body(after.tasks[lower.len() + i]));
    }
    lemma_bodies_plain(upper, added);
    lemma_bodies_first(upper);
    lemma_held_with(lower, added, after.environment, rest, caller, bodies(upper));
}

/// A task of a machine that is inside a call leaves the machine inside the
/// call, or back at the caller's tasks and environment, unless it ends
/// the program with an error.
pub proof fn lemma_task_stays_inside(
    machine: MachineView,
    task: TaskView,
    rest: Seq<TaskView>,
    caller: EnvironmentView,
)
    requires
        inside(MachineView { tasks: machine.tasks.push(task), ..machine }, rest, caller),
    ensures
        run(machine, task).1 is Finished || inside_or_back(run(machine, task).0, rest, caller),
{
    let lower = machine.tasks;
    let whole = lower.push(task);
    let upper = lower.subrange(rest.len() as int, lower.len() as int);
    let (after, action) = run(machine, task);
    assert(whole.subrange(rest.len() as int, whole.len() as int) =~= upper.push(task));
    assert(whole.subrange(0, rest.len() as int) =~= lower.subrange(0, rest.len() as int));
    lemma_bodies_push(upper, task);
    if lower.len() > rest.len() {
        assert(whole[rest.len() as int] == lower[rest.len() as int]);
    }
    if !(action is Finished) {
        match task {
            TaskView::Sequence { scope, statements, next } => {
                if scope == Scope::Body {
                    if after.tasks.len() == lower.len() {
                        assert(after.tasks =~= lower);
                        assert(after.environment == left(machine.environment));
                        if lower.len() > rest.len() {
                            lemma_bodies_first(upper);
                            assert(after.tasks.subrange(
                                rest.len() as int,
                                after.tasks.len() as int,
                            ) =~= upper);
                        } else {
                            assert(upper =~= Seq::<TaskView>::empty());
                            assert(lower =~= rest);
                        }
                    } else {
                        let again = after.tasks[lower.len() as int];
                        let first = after.tasks[(lower.len() + 1) as int];
                        assert(after.tasks =~= lower.push(again).push(first));
                        assert(after.tasks.subrange(rest.len() as int, after.tasks.len() as int)
                            =~= upper.push(again).push(first));
                        assert(after.tasks.subrange(0, rest.len() as int) =~= rest);
                        lemma_bodies_push(upper, again);
                        lemma_bodies_push(upper.push(again), first);
                    }
                } else {
                    assert(after.tasks.subrange(0, lower.len() as int) =~= lower);
                    lemma_plain_task(lower, machine.environment, after, rest, caller);
                }
            },
            TaskView::Call { name, count } => {
                let inner = without_values(machine, count as int);
                let arguments = top_values(machine, count as int);
                match named(inner.builtins, name, 0) {
                    Some(builtin) => {
                        assert(after.tasks.subrange(0, lower.len() as int) =~= lower);
                        lemma_plain_task(lower, machine.environment, after, rest, caller);
                    },
                    None => match resolve(inner.environment, name) {
                        Some(ValueView::Function { name: defined, params, body }) => {
                            lemma_frames_do_not_leak(
                                inner.environment,
                                params,
                                arguments,
                                params.len(),
                            );
                            let start = TaskView::Sequence {
                                scope: Scope::Body,
                                statements: body,
                                next: 0,
                            };
                            assert(after.tasks =~= lower.push(start));
                            assert(after.tasks.subrange(
                                rest.len() as int,
                                after.tasks.len() as int,
                            ) =~= upper.push(start));
                            assert(after.tasks.subrange(0, rest.len() as int) =~= rest);
                            lemma_bodies_push(upper, start);
                        },
                        _ => {},
                    },
                }
            },
            TaskView::Execute { node } => {
                lemma_node_tasks_are_plain(machine, node);
                assert(after.tasks.subrange(0, lower.len() as int) =~= lower);
                lemma_plain_task(lower, machine.environment, after, rest, caller);
            },
            TaskView::Evaluate { node } => {
                lemma_node_tasks_are_plain(machine, node);
                assert(after.tasks.subrange(0, lower.len() as int) =~= lower);
                lemma_plain_task(lower, machine.environment, after, rest, caller);
            },
            _ => {
                assert(after.tasks.subrange(0, lower.len() as int) =~= lower);
                lemma_plain_task(lower, machine.environment, after, rest, caller);
            },
        }
    }
}

/// The tasks that a statement or an expression adds run no body.
proof fn lemma_node_tasks_are_plain(machine: MachineView, node: NodeView)
    ensures
        plain_above(evaluate(machine, node).0.tasks, machine.tasks.len() as int) || evaluate(
            machine,
            node,
        ).1 is Finished,
        plain_above(execute(machine, node).0.tasks, machine.tasks.len() as int) || execute(
            machine,
            node,
        ).1 is Finished,
        evaluate(machine, node).0.tasks.len() >= machine.tasks.len() || evaluate(machine, node).1
            is Finished,
        execute(machine, node).0.tasks.len() >= machine.tasks.len() || execute(machine, node).1
            is Finished,
{
    match node {
        NodeView::FunctionCall { name, args } => {
            lemma_evaluations_plain(args, args.len());
        },
        NodeView::List { elements } => {
            lemma_evaluations_plain(elements, elements.len());
        },
        NodeView::Dict { pairs } => {
            lemma_pair_evaluations_plain(pairs, pairs.len());
        },
        _ => {},
    }
}

} // verus!

verus! {

/// A step of a machine that is inside a call leaves the machine inside the
/// call, or back at the caller's tasks and environment, unless it ends
/// the program.
pub proof fn lemma_step_stays_inside(
    machine: MachineView,
    answer: Option<AnswerView>,
    rest: Seq<TaskView>,
    caller: EnvironmentView,
)
    requires
        inside(machine, rest, caller),
    ensures
        step(machine, answer).1 is Finished || inside_or_back(
            step(machine, answer).0,
            rest,
            caller,
        ),
{
    match machine.waiting {
        Some(completion) => {},
        None => {
            let popped = MachineView { tasks: machine.tasks.drop_last(), ..machine };
            assert(popped.tasks.push(machine.tasks.last()) =~= machine.tasks);
            lemma_task_stays_inside(popped, machine.tasks.last(), rest, caller);
        },
    }
}

/// The machine after the steps that the answers allow, as long as more
/// than `depth` tasks are left and the program has not ended; and whether
/// the program has ended.
pub open spec fn run_above(machine: MachineView, answers: Seq<Option<AnswerView>>, depth: nat) -> (
    MachineView,
    bool,
)
    decreases answers.len(),
{
    if answers.len() == 0 || machine.tasks.len() <= depth {
        (machine, false)
    } else {
        let (next, action) = step(machine, answers[0]);
        if action is Finished {
            (next, true)
        } else {
            run_above(next, answers.drop_first(), depth)
        }
    }
}

/// However long a call runs and whatever its body binds: when the call
/// has returned, the tasks and the bindings are the caller's, as they
/// were before the call.
pub proof fn lemma_a_call_returns_to_the_callers_frame(
    machine: MachineView,
    answers: Seq<Option<AnswerView>>,
    rest: Seq<TaskView>,
    caller: EnvironmentView,
)
    requires
        inside(machine, rest, caller),
    ensures
        run_above(machine, answers, rest.len()).1 || inside_or_back(
            run_above(machine, answers, rest.len()).0,
            rest,
            caller,
        ),
        !run_above(machine, answers, rest.len()).1 && run_above(
            machine,
            answers,
            rest.len(),
        ).0.tasks.len() <= rest.len() ==> run_above(machine, answers, rest.len()).0.tasks == rest
            && run_above(machine, answers, rest.len()).0.environment == caller,
    decreases answers.len(),
{
    if !(answers.len() == 0 || machine.tasks.len() <= rest.len()) {
        let (next, action) = step(machine, answers[0]);
        lemma_step_stays_inside(machine, answers[0], rest, caller);
        if !(action is Finished) {
            if inside(next, rest, caller) {
                lemma_a_call_returns_to_the_callers_frame(next, answers.drop_first(), rest, caller);
            } else {
                assert(next.tasks.len() <= rest.len());
            }
        }
    }
}

/// A call of a function of the program, with as many arguments as the
/// function has parameters, puts the machine inside the call: the tasks
/// below the call and the caller's environment are what it returns to.
pub proof fn lemma_a_call_enters_a_frame(machine: MachineView, answer: Option<AnswerView>)
    requires
        machine.waiting is None,
        machine.tasks.len() > 0,
        machine.tasks.last() matches TaskView::Call { name, count } && machine.values.len() >= count
            && named(machine.builtins, name, 0) is None && (resolve(
            machine.environment,
            name,
        ) matches Some(ValueView::Function { params, .. }) && params.len() == count),
    ensures
        inside(step(machine, answer).0, machine.tasks.drop_last(), machine.environment),
{
    let rest = machine.tasks.drop_last();
    let after = step(machine, answer).0;
    match machine.tasks.last() {
        TaskView::Call { name, count } => {
            let popped = MachineView { tasks: machine.tasks.drop_last(), ..machine };
            let inner = without_values(popped, count as int);
            let arguments = top_values(popped, count as int);
            assert(step(machine, answer) == run(popped, machine.tasks.last()));
            assert(run(popped, machine.tasks.last()) == call(inner, name, arguments));
            match resolve(inner.environment, name) {
                Some(ValueView::Function { name: defined, params, body }) => {
                    assert(arguments.len() == count);
                    assert(call(inner, name, arguments) == user_call(inner, params, body, arguments));
                    lemma_frames_do_not_leak(inner.environment, params, arguments, params.len());
                    let start = TaskView::Sequence { scope: Scope::Body, statements: body, next: 0 };
                    assert(after.environment.parent == Some(Box::new(machine.environment)));
                    assert(outer(machine.environment, 0) == Some(machine.environment));
                    assert(outer(after.environment, 1) == Some(machine.environment));
                    assert(after.tasks =~= rest.push(start));
                    assert(after.tasks.subrange(0, rest.len() as int) =~= rest);
                    assert(after.tasks.subrange(rest.len() as int, after.tasks.len() as int)
                        =~= seq![start]);
                    lemma_bodies_push(Seq::empty(), start);
                    assert(Seq::<TaskView>::empty().push(start) =~= seq![start]);
                },
                _ => {},
            }
        },
        _ => {},
    }
}

/// No task changes the tasks below it.
pub proof fn lemma_tasks_keep_lower_tasks(machine: MachineView, task: TaskView)
    ensures
        run(machine, task).1 is Finished || (run(machine, task).0.tasks.len() >= machine.tasks.len()
            && run(machine, task).0.tasks.subrange(0, machine.tasks.len() as int)
            == machine.tasks),
{
    let after = run(machine, task).0;
    if !(run(machine, task).1 is Finished) {
        match task {
            TaskView::Execute { node } => {
                lemma_node_tasks_are_plain(machine, node);
            },
            TaskView::Evaluate { node } => {
                lemma_node_tasks_are_plain(machine, node);
            },
            _ => {},
        }
        assert(after.tasks.subrange(0, machine.tasks.len() as int) =~= machine.tasks);
    }
}

/// While more than `depth` tasks are left, the first `depth` tasks stay as
/// they are: what waits below a body waits unchanged until the body is
/// done.
pub proof fn lemma_steps_keep_lower_tasks(
    machine: MachineView,
    answers: Seq<Option<AnswerView>>,
    depth: nat,
)
    requires
        machine.tasks.len() >= depth,
    ensures
        run_above(machine, answers, depth).1 || (run_above(machine, answers, depth).0.tasks.len()
            >= depth && run_above(machine, answers, depth).0.tasks.subrange(0, depth as int)
            == machine.tasks.subrange(0, depth as int)),
    decreases answers.len(),
{
    if !(answers.len() == 0 || machine.tasks.len() <= depth) {
        let (next, action) = step(machine, answers[0]);
        if !(action is Finished) {
            match machine.waiting {
                Some(completion) => {},
                None => {
                    let popped = MachineView { tasks: machine.tasks.drop_last(), ..machine };
                    lemma_tasks_keep_lower_tasks(popped, machine.tasks.last());
                    assert(next.tasks.subrange(0, depth as int) =~= popped.tasks.subrange(
                        0,
                        depth as int,
                    ));
                    assert(popped.tasks.subrange(0, depth as int) =~= machine.tasks.subrange(
                        0,
                        depth as int,
                    ));
                },
            }
            lemma_steps_keep_lower_tasks(next, answers.drop_first(), depth);
        }
    }
}

/// The value that the variable of a loop over a range has in a round, the
/// first round being round 0; after the last round it keeps its value.
pub open spec fn round_value(start: i64, step: i64, count: nat, round: nat) -> int {
    if round < count {
        start + round * step
    } else if count == 0 {
        start as int
    } else {
        start + (count - 1) * step
    }
}

/// The task that a loop over a range is before a round.
pub open spec fn range_round(
    variable: Seq<char>,
    start: i64,
    end: i64,
    step: i64,
    body: Seq<NodeView>,
    round: nat,
) -> TaskView {
    let count = range_count(start as int, end as int, step as int);
    TaskView::ForRange {
        variable,
        current: round_value(start, step, count, round) as i64,
        step,
        left: (count - round) as u64,
        body,
    }
}

/// A loop over a range has exactly as many rounds as the range counts,
/// upward or downward, and none against the direction of its step. Round
/// `k` binds the variable to the number of the start and `k` steps, which
/// lies before the end, runs the body, and leaves the loop before round
/// `k + 1`; after the last round the loop is done.
pub proof fn lemma_range_rounds(
    machine: MachineView,
    variable: Seq<char>,
    start: i64,
    end: i64,
    step: i64,
    body: Seq<NodeView>,
    round: nat,
)
    requires
        step != 0,
        machine.values.len() > 0,
        machine.return_value is None,
        round <= range_count(start as int, end as int, step as int),
    ensures
        range_count(start as int, end as int, step as int) <= u64::MAX,
        round < range_count(start as int, end as int, step as int) ==> {
            &&& i64::MIN <= start + round * step <= i64::MAX
            &&& if step > 0 {
                start + round * step < end
            } else {
                start + round * step > end
            }
            &&& run(machine, range_round(variable, start, end, step, body, round)) == go(
                with_task(
                    with_task(
                        MachineView {
                            environment: bound(
                                machine.environment,
                                variable,
                                ValueView::Number(from_int(start + round * step) as u64),
                            ),
                            ..without_values(machine, 1)
                        },
                        range_round(variable, start, end, step, body, round + 1),
                    ),
                    TaskView::Sequence { scope: Scope::Block, statements: body, next: 0 },
                ),
            )
        },
        round == range_count(start as int, end as int, step as int) ==> run(
            machine,
            range_round(variable, start, end, step, body, round),
        ) == go(machine),
{
    let count = range_count(start as int, end as int, step as int);
    lemma_range_count_fits(start, end, step);
    if round < count {
        crate::types::lemma_range_count(start as int, end as int, step as int, round as int);
        assert(step > 0 ==> round * step >= 0) by (nonlinear_arith)
            requires
                round >= 0,
        ;
        assert(step < 0 ==> round * step <= 0) by (nonlinear_arith)
            requires
                round >= 0,
        ;
        assert((round + 1) * step == round * step + step) by (nonlinear_arith);
        if round + 1 < count {
            crate::types::lemma_range_count(
                start as int,
                end as int,
                step as int,
                (round + 1) as int,
            );
        }
    }
}

/// The count of a range fits the machine.
pub proof fn lemma_range_count_fits(start: i64, end: i64, step: i64)
    ensures
        range_count(start as int, end as int, step as int) <= u64::MAX,
{
    if step > 0 && start < end {
        assert((end - start + step - 1) / (step as int) <= end - start) by (nonlinear_arith)
            requires
                end - start > 0,
                step > 0,
        ;
    } else if step < 0 && start > end {
        assert((start - end - step - 1) / (-step as int) <= start - end) by (nonlinear_arith)
            requires
                start - end > 0,
                step < 0,
        ;
    }
}

} // verus!

verus! {

/// A round of a loop over a range comes back to the loop: whatever the
/// body does, when its tasks are done and the program has not ended, the
/// task on top is the loop before its next round, above the tasks that
/// were below the loop.
pub proof fn lemma_a_round_returns_to_the_loop(
    machine: MachineView,
    variable: Seq<char>,
    start: i64,
    end: i64,
    step: i64,
    body: Seq<NodeView>,
    round: nat,
    answers: Seq<Option<AnswerView>>,
)
    requires
        step != 0,
        machine.values.len() > 0,
        machine.return_value is None,
        round < range_count(start as int, end as int, step as int),
    ensures
        ({
            let first = run(machine, range_round(variable, start, end, step, body, round)).0;
            let (after, ended) = run_above(first, answers, machine.tasks.len() + 1);
            !ended && after.tasks.len() <= machine.tasks.len() + 1 ==> after.tasks
                == machine.tasks.push(range_round(variable, start, end, step, body, round + 1))
        }),
{
    let next = range_round(variable, start, end, step, body, round + 1);
    let first = run(machine, range_round(variable, start, end, step, body, round)).0;
    lemma_range_rounds(machine, variable, start, end, step, body, round);
    let depth = machine.tasks.len() + 1;
    let (after, ended) = run_above(first, answers, depth);
    lemma_steps_keep_lower_tasks(first, answers, depth);
    assert(first.tasks.subrange(0, depth as int) =~= machine.tasks.push(next));
    if !ended && after.tasks.len() <= depth {
        assert(after.tasks =~= after.tasks.subrange(0, depth as int));
    }
}

} // verus!

verus! {

/// The body of a loop that counts its rounds: `n = n + 1`.
pub open spec fn counting_body() -> Seq<NodeView> {
    seq![
        NodeView::Assignment {
            name: "n"@,
            value: Box::new(
                NodeView::BinaryOp {
                    left: Box::new(NodeView::Variable { name: "n"@ }),
                    operator: "+"@,
                    right: Box::new(
                        NodeView::Literal { value: ValueView::Number(from_int(1) as u64) },
                    ),
                },
            ),
        },
    ]
}

/// The machine after one round of a loop with the counting body, driven
/// by a driver that answers the sum that the body asks for with `sum`.
#[verifier::opaque]
pub open spec fn counting_round(machine: MachineView, sum: u64) -> MachineView {
    let m1 = step(machine, None).0;
    let m2 = step(m1, None).0;
    let m3 = step(m2, None).0;
    let m4 = step(m3, None).0;
    let m5 = step(m4, None).0;
    let m6 = step(m5, None).0;
    let m7 = step(m6, None).0;
    let m8 = step(m7, None).0;
    let m9 = step(m8, Some(AnswerView::Number(sum))).0;
    let m10 = step(m9, None).0;
    step(m10, None).0
}

/// Whether the machine is about to run round `round` of the counting loop
/// over the range, with `n` at the number `round`.
pub open spec fn counting_at(
    machine: MachineView,
    lower: Seq<TaskView>,
    start: i64,
    end: i64,
    stride: i64,
    round: nat,
) -> bool {
    &&& machine.waiting is None
    &&& machine.return_value is None
    &&& machine.tasks == lower.push(range_round("i"@, start, end, stride, counting_body(), round))
    &&& machine.values.len() >= 1
    &&& resolve(machine.environment, "n"@) == Some(ValueView::Number(from_int(round as int) as u64))
}

/// The names and the operator of the counting loop are what they are.
proof fn lemma_counting_names()
    ensures
        "i"@ != "n"@,
        !is_and("+"@),
        !is_or("+"@),
{
    reveal_strlit("i");
    reveal_strlit("n");
    reveal_strlit("+");
    reveal_strlit("y");
    reveal_strlit("and");
    reveal_strlit("o");
    reveal_strlit("or");
    assert("i"@[0] == 'i');
    assert("n"@[0] == 'n');
    assert("+"@[0] == '+');
    assert("y"@[0] == 'y');
    assert("o"@[0] == 'o');
    assert("and"@.len() == 3);
    assert("or"@.len() == 2);
    assert("+"@.len() == 1);
}

/// One round of the counting loop, with a driver that adds, leaves `n` one
/// higher and the loop before its next round.
pub proof fn lemma_counting_round(
    machine: MachineView,
    lower: Seq<TaskView>,
    start: i64,
    end: i64,
    stride: i64,
    round: nat,
)
    requires
        stride != 0,
        round < range_count(start as int, end as int, stride as int),
        counting_at(machine, lower, start, end, stride, round),
    ensures
        counting_at(
            counting_round(machine, from_int((round + 1) as int) as u64),
            lower,
            start,
            end,
            stride,
            round + 1,
        ),
        counting_round(machine, from_int((round + 1) as int) as u64).values.len() == machine.values.len(),
        counting_round(machine, from_int((round + 1) as int) as u64).builtins == machine.builtins,
{
    reveal(counting_round);
    lemma_counting_names();
    let body = counting_body();
    let this = range_round("i"@, start, end, stride, body, round);
    let next = range_round("i"@, start, end, stride, body, round + 1);
    let one = ValueView::Number(from_int(1) as u64);
    let old_n = ValueView::Number(from_int(round as int) as u64);
    let new_n = ValueView::Number(from_int((round + 1) as int) as u64);
    let add = NodeView::BinaryOp {
        left: Box::new(NodeView::Variable { name: "n"@ }),
        operator: "+"@,
        right: Box::new(NodeView::Literal { value: one }),
    };
    let assign = NodeView::Assignment { name: "n"@, value: Box::new(add) };
    assert(body[0] == assign);
    assert(body.len() == 1);
    let popped = MachineView { tasks: machine.tasks.drop_last(), ..machine };
    assert(machine.tasks.drop_last() =~= lower);
    lemma_range_rounds(popped, "i"@, start, end, stride, body, round);
    let i_value = ValueView::Number(from_int(start + round * stride) as u64);
    let depth = machine.values.len();
    // the loop binds its variable and starts the body
    let m1 = step(machine, None).0;
    let block0 = TaskView::Sequence { scope: Scope::Block, statements: body, next: 0 };
    assert(m1.tasks == lower.push(next).push(block0));
    assert(m1.environment == bound(machine.environment, "i"@, i_value));
    lemma_binding_shadows(machine.environment, "i"@, i_value, "n"@);
    assert(resolve(m1.environment, "n"@) == Some(old_n));
    assert(m1.values.len() == depth - 1);
    // the block takes up its statement
    let m2 = step(m1, None).0;
    let block1 = TaskView::Sequence { scope: Scope::Block, statements: body, next: 1 };
    assert(m1.tasks.drop_last() =~= lower.push(next));
    assert(m2.tasks == lower.push(next).push(block1).push(TaskView::Execute { node: assign }));
    // the assignment asks for its value
    let m3 = step(m2, None).0;
    assert(m2.tasks.drop_last() =~= lower.push(next).push(block1));
    let base = lower.push(next).push(block1).push(TaskView::Assign { name: "n"@ });
    assert(m3.tasks == base.push(TaskView::Evaluate { node: add }));
    // the sum asks for its left side
    let m4 = step(m3, None).0;
    assert(m3.tasks.drop_last() =~= base);
    let after_left = TaskView::AfterLeft { operator: "+"@, right: NodeView::Literal { value: one } };
    assert(m4.tasks == base.push(after_left).push(
        TaskView::Evaluate { node: NodeView::Variable { name: "n"@ } },
    ));
    assert(m4.environment == m1.environment);
    // the variable is read
    let m5 = step(m4, None).0;
    assert(m4.tasks.drop_last() =~= base.push(after_left));
    assert(m5.tasks == base.push(after_left));
    assert(m5.values == m4.values.push(old_n));
    // the right side is needed
    let m6 = step(m5, None).0;
    assert(m5.tasks.drop_last() =~= base);
    assert(m6.tasks == base.push(TaskView::Apply { operator: "+"@ }).push(
        TaskView::Evaluate { node: NodeView::Literal { value: one } },
    ));
    assert(m6.values == m5.values);
    // the literal is read
    let m7 = step(m6, None).0;
    assert(m6.tasks.drop_last() =~= base.push(TaskView::Apply { operator: "+"@ }));
    assert(m7.tasks == base.push(TaskView::Apply { operator: "+"@ }));
    assert(m7.values == m4.values.push(old_n).push(one));
    // the sum is asked of the driver
    let m8 = step(m7, None).0;
    assert(m7.tasks.drop_last() =~= base);
    assert(m7.values[m7.values.len() - 2] == old_n);
    assert(m7.values[m7.values.len() - 1] == one);
    assert(m8.tasks == base);
    assert(m8.waiting == Some(CompletionView::Number));
    assert(m8.values =~= m4.values);
    // the driver answers
    let m9 = step(m8, Some(AnswerView::Number(from_int((round + 1) as int) as u64))).0;
    assert(m9.tasks == base);
    assert(m9.waiting is None);
    assert(m9.values == m4.values.push(new_n));
    // the value is bound
    let m10 = step(m9, None).0;
    assert(m9.tasks.drop_last() =~= lower.push(next).push(block1));
    assert(m10.tasks == lower.push(next).push(block1));
    assert(m10.environment == bound(m1.environment, "n"@, new_n));
    lemma_binding_shadows(m1.environment, "n"@, new_n, "n"@);
    assert(m10.values == m9.values);
    // the block is done
    let m11 = step(m10, None).0;
    assert(m10.tasks.drop_last() =~= lower.push(next));
    assert(m11.tasks == lower.push(next));
    assert(m11.environment == m10.environment);
    assert(m11.values == m10.values);
    assert(m11 == counting_round(machine, from_int((round + 1) as int) as u64));
}

} // verus!

verus! {

/// The machine after `rounds` rounds of the counting loop, the first of
/// them round `from`, with a driver that adds.
pub open spec fn counting_rounds(machine: MachineView, from: nat, rounds: nat) -> MachineView
    decreases rounds,
{
    if rounds == 0 {
        machine
    } else {
        counting_rounds(
            counting_round(machine, from_int((from + 1) as int) as u64),
            from + 1,
            (rounds - 1) as nat,
        )
    }
}

/// The rounds of the counting loop that are left, with a driver that
/// adds, leave `n` at the count of the range and the loop before the round
/// that it does not have.
pub proof fn lemma_counting_loop(
    machine: MachineView,
    lower: Seq<TaskView>,
    start: i64,
    end: i64,
    stride: i64,
    round: nat,
)
    requires
        stride != 0,
        round <= range_count(start as int, end as int, stride as int),
        counting_at(machine, lower, start, end, stride, round),
    ensures
        ({
            let count = range_count(start as int, end as int, stride as int);
            let after = counting_rounds(machine, round, (count - round) as nat);
            &&& counting_at(after, lower, start, end, stride, count)
            &&& after.values.len() == machine.values.len()
            &&& after.builtins == machine.builtins
        }),
    decreases range_count(start as int, end as int, stride as int) - round,
{
    let count = range_count(start as int, end as int, stride as int);
    if round < count {
        lemma_counting_round(machine, lower, start, end, stride, round);
        lemma_counting_loop(
            counting_round(machine, from_int((round + 1) as int) as u64),
            lower,
            start,
            end,
            stride,
            round + 1,
        );
    }
}

/// The program that counts the rounds of a loop over a range:
/// `n = 0`, then `n = n + 1` for each `i` of the range, then `n`.
pub open spec fn counting_program(start: i64, end: i64, stride: i64) -> Seq<NodeView> {
    seq![
        NodeView::Assignment {
            name: "n"@,
            value: Box::new(NodeView::Literal { value: ValueView::Number(from_int(0) as u64) }),
        },
        NodeView::For {
            variable: "i"@,
            iterable: Box::new(
                NodeView::Literal { value: ValueView::Range { start, end, step: stride } },
            ),
            body: counting_body(),
        },
        NodeView::Variable { name: "n"@ },
    ]
}

/// The machine that has taken up the counting program and come to its
/// loop.
pub open spec fn counting_start(machine: MachineView, start: i64, end: i64, stride: i64) -> MachineView {
    let m0 = loaded(machine, counting_program(start, end, stride));
    let m1 = step(m0, None).0;
    let m2 = step(m1, None).0;
    let m3 = step(m2, None).0;
    let m4 = step(m3, None).0;
    let m5 = step(m4, None).0;
    let m6 = step(m5, None).0;
    let m7 = step(m6, None).0;
    step(m7, None).0
}

/// What the driver is told at the end of the counting program, once the
/// loop has had its rounds.
pub open spec fn counting_end(machine: MachineView) -> ActionView {
    let m1 = step(machine, None).0;
    let m2 = step(m1, None).0;
    let m3 = step(m2, None).0;
    let m4 = step(m3, None).0;
    step(m4, None).1
}

/// The whole run of the counting program, with a driver that adds: what
/// the driver is told at its end.
pub open spec fn counting_run(machine: MachineView, start: i64, end: i64, stride: i64) -> ActionView {
    counting_end(
        counting_rounds(
            counting_start(machine, start, end, stride),
            0,
            range_count(start as int, end as int, stride as int),
        ),
    )
}

/// The counting program ends with the count of its range: the distance
/// from the start to the end divided by the step and rounded up, upward
/// for a step above zero and downward for a step below zero, and zero
/// where the step leads away from the end. The body runs once for each
/// round and never for a range against its direction.
pub proof fn lemma_counting_program(machine: MachineView, start: i64, end: i64, stride: i64)
    requires
        stride != 0,
        machine.return_value is None,
    ensures
        counting_run(machine, start, end, stride) == ActionView::Finished(
            Ok(
                ValueView::Number(
                    from_int(range_count(start as int, end as int, stride as int) as int) as u64,
                ),
            ),
        ),
        stride > 0 && end <= start ==> range_count(start as int, end as int, stride as int) == 0,
        stride < 0 && end >= start ==> range_count(start as int, end as int, stride as int) == 0,
{
    lemma_counting_names();
    lemma_range_count_fits(start, end, stride);
    let count = range_count(start as int, end as int, stride as int);
    let program = counting_program(start, end, stride);
    let body = counting_body();
    let zero = ValueView::Number(from_int(0) as u64);
    let range = ValueView::Range { start, end, step: stride };
    let first = program[0];
    let second = program[1];
    let third = program[2];
    assert(program.len() == 3);
    let seq1 = TaskView::Sequence { scope: Scope::Program, statements: program, next: 1 };
    let seq2 = TaskView::Sequence { scope: Scope::Program, statements: program, next: 2 };
    let seq3 = TaskView::Sequence { scope: Scope::Program, statements: program, next: 3 };
    let none = Seq::<TaskView>::empty();
    let m0 = loaded(machine, program);
    assert(m0.tasks.drop_last() =~= none);
    let m1 = step(m0, None).0;
    assert(m1.tasks == none.push(seq1).push(TaskView::Execute { node: first }));
    assert(m1.tasks.drop_last() =~= none.push(seq1));
    let m2 = step(m1, None).0;
    assert(m2.tasks == none.push(seq1).push(TaskView::Assign { name: "n"@ }).push(
        TaskView::Evaluate { node: NodeView::Literal { value: zero } },
    ));
    assert(m2.tasks.drop_last() =~= none.push(seq1).push(TaskView::Assign { name: "n"@ }));
    let m3 = step(m2, None).0;
    assert(m3.tasks == none.push(seq1).push(TaskView::Assign { name: "n"@ }));
    assert(m3.values =~= seq![zero]);
    assert(m3.tasks.drop_last() =~= none.push(seq1));
    let m4 = step(m3, None).0;
    assert(m4.tasks == none.push(seq1));
    assert(m4.environment == bound(machine.environment, "n"@, zero));
    lemma_binding_shadows(machine.environment, "n"@, zero, "n"@);
    assert(m4.values =~= seq![zero]);
    assert(m4.tasks.drop_last() =~= none);
    let m5 = step(m4, None).0;
    assert(m5.tasks == none.push(seq2).push(TaskView::Execute { node: second }));
    assert(m5.values =~= Seq::<ValueView>::empty());
    assert(m5.tasks.drop_last() =~= none.push(seq2));
    let m6 = step(m5, None).0;
    let for_start = TaskView::ForStart { variable: "i"@, body };
    assert(m6.tasks == none.push(seq2).push(for_start).push(
        TaskView::Evaluate { node: NodeView::Literal { value: range } },
    ));
    assert(m6.tasks.drop_last() =~= none.push(seq2).push(for_start));
    let m7 = step(m6, None).0;
    assert(m7.tasks == none.push(seq2).push(for_start));
    assert(m7.values =~= seq![range]);
    assert(m7.tasks.drop_last() =~= none.push(seq2));
    let m8 = step(m7, None).0;
    assert(0 * stride == 0) by (nonlinear_arith);
    assert(range_round("i"@, start, end, stride, body, 0) == (TaskView::ForRange {
        variable: "i"@,
        current: start,
        step: stride,
        left: count as u64,
        body,
    }));
    assert(m8.tasks == none.push(seq2).push(range_round("i"@, start, end, stride, body, 0)));
    assert(m8.values =~= seq![ValueView::Null]);
    assert(m8.environment == m4.environment);
    assert(m8 == counting_start(machine, start, end, stride));
    assert(counting_at(m8, none.push(seq2), start, end, stride, 0));
    lemma_counting_loop(m8, none.push(seq2), start, end, stride, 0);
    let looped = counting_rounds(m8, 0, count);
    let total = ValueView::Number(from_int(count as int) as u64);
    assert(looped.values.len() == 1);
    let popped = MachineView { tasks: looped.tasks.drop_last(), ..looped };
    assert(looped.tasks.drop_last() =~= none.push(seq2));
    lemma_range_rounds(popped, "i"@, start, end, stride, body, count);
    let e1 = step(looped, None).0;
    assert(e1.tasks == none.push(seq2));
    assert(e1.values == looped.values);
    assert(e1.tasks.drop_last() =~= none);
    let e2 = step(e1, None).0;
    assert(e2.tasks == none.push(seq3).push(TaskView::Execute { node: third }));
    assert(e2.values =~= Seq::<ValueView>::empty());
    assert(e2.tasks.drop_last() =~= none.push(seq3));
    let e3 = step(e2, None).0;
    assert(e3.tasks == none.push(seq3));
    assert(e3.values =~= seq![total]);
    assert(e3.tasks.drop_last() =~= none);
    let e4 = step(e3, None).0;
    assert(e4.tasks =~= none);
    assert(e4.values =~= seq![total]);
    assert(e4.waiting is None);
}

} // verus!

verus! {

/// A name that a function binds does not reach its caller: from the call
/// of a function of the program to its return, whatever the body binds
/// and however long it runs, every name has for the caller the value, or
/// the lack of one, that it had before the call.
pub proof fn lemma_a_call_leaves_the_caller_as_it_was(
    machine: MachineView,
    answer: Option<AnswerView>,
    answers: Seq<Option<AnswerView>>,
    name: Seq<char>,
)
    requires
        machine.waiting is None,
        machine.tasks.len() > 0,
        machine.tasks.last() matches TaskView::Call { name: called_name, count }
            && machine.values.len() >= count && named(machine.builtins, called_name, 0) is None && (
        resolve(machine.environment, called_name) matches Some(ValueView::Function { params, .. })
            && params.len() == count),
    ensures
        ({
            let entered_call = step(machine, answer).0;
            let (after, ended) = run_above(
                entered_call,
                answers,
                (machine.tasks.len() - 1) as nat,
            );
            !ended && after.tasks.len() <= machine.tasks.len() - 1 ==> {
                &&& after.tasks == machine.tasks.drop_last()
                &&& after.environment == machine.environment
                &&& resolve(after.environment, name) == resolve(machine.environment, name)
            }
        }),
{
    lemma_a_call_enters_a_frame(machine, answer);
    lemma_a_call_returns_to_the_callers_frame(
        step(machine, answer).0,
        answers,
        machine.tasks.drop_last(),
        machine.environment,
    );
}

} // verus!
