//! The builtin functions, which a call finds by name before any binding of
//! the program.
use vstd::prelude::*;
use crate::host::{
    Completion, CompletionView, Computed, ComputedView, NumberOp, PieceView, Request, RequestView,
    TextPiece, models, pieces_view, plain, plain_text,
};
use crate::number::{as_i32, from_int, is_nan, less, magnitude};
use crate::text::{is_word, strings_view};
use crate::types::{
    ValueView, VaderValue, copy_values, entries_view, lemma_value_view, length_of, rendered,
    type_label_of, values_view,
};

verus! {

/// A builtin function. The two names of a bilingual pair are one builtin.
#[derive(Debug, Clone, Copy, PartialEq, Eq, Structural)]
pub enum Builtin {
    Print,
    Type,
    Len,
    Input,
    ReadFile,
    WriteFile,
    Upper,
    Lower,
    Split,
    Abs,
    Sqrt,
    Pow,
    Random,
    Push,
    Pop,
    Reverse,
    Time,
    Exit,
}

/// What `str::to_uppercase` makes of a text.
pub uninterp spec fn uppercase_of(text: Seq<char>) -> Seq<char>;

/// What `str::to_lowercase` makes of a text.
pub uninterp spec fn lowercase_of(text: Seq<char>) -> Seq<char>;

/// The parts that `str::split` cuts a text into at a separator.
pub uninterp spec fn split_of(text: Seq<char>, separator: Seq<char>) -> Seq<Seq<char>>;

/// `str::to_uppercase`: the text in upper case, by the Unicode case
/// mappings; its result has the name `uppercase_of`.
#[verifier::external_body]
fn uppercase(text: &str) -> (upper: String)
    ensures
        upper@ == uppercase_of(text@),
{
    text.to_uppercase()
}

/// `str::to_lowercase`: the text in lower case, by the Unicode case
/// mappings; its result has the name `lowercase_of`.
#[verifier::external_body]
fn lowercase(text: &str) -> (lower: String)
    ensures
        lower@ == lowercase_of(text@),
{
    text.to_lowercase()
}

/// `str::split` with a string as separator: the parts of the text between
/// the occurrences of the separator, in their order; its result has the
/// name `split_of`.
#[verifier::external_body]
fn split(text: &str, separator: &str) -> (parts: Vec<String>)
    ensures
        strings_view(parts@) == split_of(text@, separator@),
{
    text.split(separator).map(|part| part.to_string()).collect()
}

/// The list of the strings with the given texts.
#[verifier::loop_isolation(false)]
pub fn text_list(texts: Vec<String>) -> (list: VaderValue)
    ensures
        list@ == ValueView::List(texts_as_values(strings_view(texts@))),
{
    let mut items: Vec<VaderValue> = Vec::new();
    let mut at: usize = 0;
    while at < texts.len()
        invariant
            at <= texts.len(),
            values_view(items@) =~= texts_as_values(strings_view(texts@)).subrange(0, at as int),
        decreases texts.len() - at,
    {
        items.push(VaderValue::String(texts[at].clone()));
        at = at + 1;
    }
    let list = VaderValue::List(items);
    proof {
        lemma_value_view(list);
        assert(values_view(items@) =~= texts_as_values(strings_view(texts@)));
    }
    list
}

/// The strings with the given texts.
pub open spec fn texts_as_values(texts: Seq<Seq<char>>) -> Seq<ValueView> {
    Seq::new(texts.len(), |i: int| ValueView::String(texts[i]))
}

/// The first of the first `count` arguments whose display form the driver
/// has to render, searched from `from` on.
pub open spec fn unrendered(arguments: Seq<ValueView>, count: int, from: int) -> Option<int>
    decreases arguments.len() - from,
{
    if from < 0 || from >= arguments.len() || from >= count {
        None
    } else if plain_text(rendered(arguments[from]), 0) is None {
        Some(from)
    } else {
        unrendered(arguments, count, from + 1)
    }
}

/// The display form of an argument that needs no rendering.
pub open spec fn text_of_argument(argument: ValueView) -> Seq<char> {
    match plain_text(rendered(argument), 0) {
        Some(text) => text,
        None => Seq::empty(),
    }
}

/// The display forms of the first `count` arguments, with single spaces
/// between them.
pub open spec fn spaced(arguments: Seq<ValueView>, count: nat) -> Seq<char>
    decreases count,
{
    if count == 0 || count > arguments.len() {
        Seq::empty()
    } else if count == 1 {
        text_of_argument(arguments[0])
    } else {
        spaced(arguments, (count - 1) as nat) + " "@ + text_of_argument(arguments[count - 1])
    }
}

/// How many of the arguments a builtin reads as text.
pub open spec fn text_arguments(builtin: Builtin, given: nat) -> nat {
    let most: nat = match builtin {
        Builtin::Print => given,
        Builtin::Input => 1,
        Builtin::ReadFile => 1,
        Builtin::WriteFile => 2,
        Builtin::Upper => 1,
        Builtin::Lower => 1,
        Builtin::Split => 2,
        _ => 0,
    };
    if most < given {
        most
    } else {
        given
    }
}

/// A request, with the way its answer becomes the value.
pub open spec fn pending(request: RequestView, completion: CompletionView) -> Result<
    ComputedView,
    Seq<char>,
> {
    Ok(ComputedView::Pending { request, completion })
}

/// A value.
pub open spec fn value(value: ValueView) -> Result<ComputedView, Seq<char>> {
    Ok(ComputedView::Value(value))
}

/// What a call of a builtin gives once the arguments that it reads as
/// text need no rendering.
pub open spec fn applied(builtin: Builtin, arguments: Seq<ValueView>) -> Result<
    ComputedView,
    Seq<char>,
> {
    match builtin {
        Builtin::Print => pending(
            RequestView::Print { text: spaced(arguments, arguments.len()) },
            CompletionView::Value { value: ValueView::String(spaced(arguments, arguments.len())) },
        ),
        Builtin::Type => if arguments.len() == 0 {
            Err("type() requiere al menos un argumento"@)
        } else {
            value(ValueView::String(type_label_of(arguments[0])))
        },
        Builtin::Len => if arguments.len() == 0 {
            Err("len() requiere un argumento"@)
        } else {
            match arguments[0] {
                ValueView::String(_) | ValueView::List(_) | ValueView::Dict(_) => value(
                    ValueView::Number(from_int(length_of(arguments[0]) as int) as u64),
                ),
                ValueView::Object { class_name, fields } => value(
                    ValueView::Number(from_int(fields.len() as int) as u64),
                ),
                _ => Err("len() solo funciona con texto, listas, diccionarios u objetos"@),
            }
        },
        Builtin::Input => pending(
            RequestView::Input {
                prompt: if arguments.len() == 0 {
                    None
                } else {
                    Some(text_of_argument(arguments[0]))
                },
            },
            CompletionView::Line,
        ),
        Builtin::ReadFile => if arguments.len() == 0 {
            Err("read_file() requiere un nombre de archivo"@)
        } else {
            pending(
                RequestView::ReadFile { path: text_of_argument(arguments[0]) },
                CompletionView::FileRead { path: text_of_argument(arguments[0]) },
            )
        },
        Builtin::WriteFile => if arguments.len() < 2 {
            Err("write_file() requiere nombre de archivo y contenido"@)
        } else {
            pending(
                RequestView::WriteFile {
                    path: text_of_argument(arguments[0]),
                    contents: text_of_argument(arguments[1]),
                },
                CompletionView::FileWritten { path: text_of_argument(arguments[0]) },
            )
        },
        Builtin::Upper => if arguments.len() == 0 {
            Err("upper() requiere un argumento de texto"@)
        } else {
            value(ValueView::String(uppercase_of(text_of_argument(arguments[0]))))
        },
        Builtin::Lower => if arguments.len() == 0 {
            Err("lower() requiere un argumento de texto"@)
        } else {
            value(ValueView::String(lowercase_of(text_of_argument(arguments[0]))))
        },
        Builtin::Split => if arguments.len() == 0 {
            Err("split() requiere un texto"@)
        } else {
            value(
                ValueView::List(
                    texts_as_values(
                        split_of(
                            text_of_argument(arguments[0]),
                            if arguments.len() > 1 {
                                text_of_argument(arguments[1])
                            } else {
                                " "@
                            },
                        ),
                    ),
                ),
            )
        },
        Builtin::Abs => if arguments.len() == 0 {
            Err("abs() requiere un número"@)
        } else {
            match arguments[0] {
                ValueView::Number(bits) => value(ValueView::Number(magnitude(bits))),
                _ => Err("abs() solo funciona con números"@),
            }
        },
        Builtin::Sqrt => if arguments.len() == 0 {
            Err("sqrt() requiere un número"@)
        } else {
            match arguments[0] {
                ValueView::Number(bits) => if less(bits, 0) {
                    Err("sqrt() no puede calcular raíz de número negativo"@)
                } else {
                    pending(
                        RequestView::Arithmetic { op: NumberOp::SquareRoot, left: bits, right: 0 },
                        CompletionView::Number,
                    )
                },
                _ => Err("sqrt() solo funciona con números"@),
            }
        },
        Builtin::Pow => if arguments.len() < 2 {
            Err("pow() requiere base y exponente"@)
        } else {
            match (arguments[0], arguments[1]) {
                (ValueView::Number(base), ValueView::Number(exponent)) => pending(
                    RequestView::Arithmetic { op: NumberOp::Power, left: base, right: exponent },
                    CompletionView::Number,
                ),
                _ => Err("pow() solo funciona con números"@),
            }
        },
        Builtin::Random => pending(RequestView::Random, CompletionView::Number),
        Builtin::Push => if arguments.len() < 2 {
            Err("push() requiere lista y elemento"@)
        } else {
            match arguments[0] {
                ValueView::List(items) => value(ValueView::List(items.push(arguments[1]))),
                _ => Err("push() solo funciona con listas"@),
            }
        },
        Builtin::Pop => if arguments.len() == 0 {
            Err("pop() requiere una lista"@)
        } else {
            match arguments[0] {
                ValueView::List(items) => if items.len() == 0 {
                    Err("No se puede hacer pop() de lista vacía"@)
                } else {
                    value(items.last())
                },
                _ => Err("pop() solo funciona con listas"@),
            }
        },
        Builtin::Reverse => if arguments.len() == 0 {
            Err("reverse() requiere una lista"@)
        } else {
            match arguments[0] {
                ValueView::List(items) => value(ValueView::List(items.reverse())),
                _ => Err("reverse() solo funciona con listas"@),
            }
        },
        Builtin::Time => pending(RequestView::Time, CompletionView::Number),
        Builtin::Exit => pending(
            RequestView::Exit {
                code: if arguments.len() == 0 {
                    0
                } else {
                    match arguments[0] {
                        ValueView::Number(bits) => as_i32(bits),
                        _ => 0,
                    }
                },
            },
            CompletionView::Halt,
        ),
    }
}

/// What a call of a builtin gives: a request to render the first argument
/// that it reads as text and that holds a number with a fractional part,
/// after which it is called again; else what `applied` says.
pub open spec fn called(builtin: Builtin, arguments: Seq<ValueView>) -> Result<
    ComputedView,
    Seq<char>,
> {
    match unrendered(arguments, text_arguments(builtin, arguments.len()) as int, 0) {
        Some(index) => pending(
            RequestView::Render { pieces: rendered(arguments[index]) },
            CompletionView::Argument { builtin, arguments, index: index as usize },
        ),
        None => applied(builtin, arguments),
    }
}

/// The display form of a value, if the driver need not render it.
fn argument_text(argument: &VaderValue) -> (text: Option<String>)
    ensures
        match text {
            Some(t) => plain_text(rendered(argument@), 0) == Some(t@) && t@ == text_of_argument(
                argument@,
            ),
            None => plain_text(rendered(argument@), 0) is None,
        },
{
    let pieces = argument.to_string();
    plain(&pieces)
}

/// The display form of a value that needs no rendering.
fn plain_argument(argument: &VaderValue) -> (text: String)
    ensures
        plain_text(rendered(argument@), 0) is Some ==> text@ == text_of_argument(argument@),
{
    match argument_text(argument) {
        Some(text) => text,
        None => String::new(),
    }
}

/// The index of the first of the first `count` arguments that the driver
/// has to render.
#[verifier::loop_isolation(false)]
fn find_unrendered(arguments: &Vec<VaderValue>, count: usize) -> (found: Option<usize>)
    ensures
        match found {
            Some(index) => unrendered(values_view(arguments@), count as int, 0) == Some(
                index as int,
            ) && index < arguments@.len(),
            None => unrendered(values_view(arguments@), count as int, 0) is None,
        },
{
    let mut at: usize = 0;
    while at < arguments.len() && at < count
        invariant
            at <= arguments.len(),
            unrendered(values_view(arguments@), count as int, 0) == unrendered(
                values_view(arguments@),
                count as int,
                at as int,
            ),
        decreases arguments.len() - at,
    {
        match argument_text(&arguments[at]) {
            Some(_) => {},
            None => {
                return Some(at);
            },
        }
        at = at + 1;
    }
    None
}

/// The display forms of the arguments, with single spaces between them.
#[verifier::loop_isolation(false)]
fn join_arguments(arguments: &Vec<VaderValue>) -> (text: String)
    requires
        unrendered(values_view(arguments@), arguments@.len() as int, 0) is None,
    ensures
        text@ == spaced(values_view(arguments@), arguments@.len()),
{
    let mut text = String::new();
    let mut at: usize = 0;
    assert(text@ =~= spaced(values_view(arguments@), 0));
    while at < arguments.len()
        invariant
            at <= arguments.len(),
            text@ == spaced(values_view(arguments@), at as nat),
            unrendered(values_view(arguments@), arguments@.len() as int, at as int) is None,
        decreases arguments.len() - at,
    {
        if at > 0 {
            text.append(" ");
        }
        text.append(plain_argument(&arguments[at]).as_str());
        at = at + 1;
        assert(text@ =~= spaced(values_view(arguments@), at as nat));
    }
    text
}

/// The values in the opposite order.
#[verifier::loop_isolation(false)]
fn reversed(items: &Vec<VaderValue>) -> (turned: Vec<VaderValue>)
    ensures
        values_view(turned@) == values_view(items@).reverse(),
{
    let mut turned: Vec<VaderValue> = Vec::new();
    let mut left: usize = items.len();
    while left > 0
        invariant
            left <= items.len(),
            turned@.len() == items@.len() - left,
            forall|i: int|
                0 <= i < turned@.len() ==> (#[trigger] turned@[i])@ == items@[items@.len() - 1 - i]@,
        decreases left,
    {
        left = left - 1;
        turned.push(items[left].copy());
    }
    assert(values_view(turned@) =~= values_view(items@).reverse());
    turned
}

impl Builtin {
    /// How many of `given` arguments the builtin reads as text.
    pub fn text_count(&self, given: usize) -> (count: usize)
        ensures
            count == text_arguments(*self, given as nat),
    {
        let most: usize = match self {
            Builtin::Print => given,
            Builtin::Input => 1,
            Builtin::ReadFile => 1,
            Builtin::WriteFile => 2,
            Builtin::Upper => 1,
            Builtin::Lower => 1,
            Builtin::Split => 2,
            _ => 0,
        };
        if most < given {
            most
        } else {
            given
        }
    }

    /// Calls the builtin with the arguments.
    pub fn call(&self, arguments: &Vec<VaderValue>) -> (result: Result<Computed, String>)
        ensures
            models(result, called(*self, values_view(arguments@))),
    {
        match find_unrendered(arguments, self.text_count(arguments.len())) {
            Some(index) => Ok(
                Computed::Pending {
                    request: Request::Render { pieces: arguments[index].to_string() },
                    completion: Completion::Argument {
                        builtin: *self,
                        arguments: copy_values(arguments),
                        index,
                    },
                },
            ),
            None => self.apply(arguments),
        }
    }

    /// Calls the builtin with arguments of which those that it reads as
    /// text need no rendering.
    fn apply(&self, arguments: &Vec<VaderValue>) -> (result: Result<Computed, String>)
        requires
            unrendered(
                values_view(arguments@),
                text_arguments(*self, arguments@.len()) as int,
                0,
            ) is None,
        ensures
            models(result, applied(*self, values_view(arguments@))),
    {
        proof {
            lemma_unrendered(
                values_view(arguments@),
                text_arguments(*self, arguments@.len()) as int,
                0,
            );
            if arguments@.len() > 0 {
                lemma_value_view(arguments@[0]);
            }
        }
        match self {
            Builtin::Print => {
                let text = join_arguments(arguments);
                Ok(
                    Computed::Pending {
                        request: Request::Print { text: text.clone() },
                        completion: Completion::Value { value: VaderValue::String(text) },
                    },
                )
            },
            Builtin::Type => {
                if arguments.len() == 0 {
                    Err(String::from_str("type() requiere al menos un argumento"))
                } else {
                    Ok(
                        Computed::Value(
                            VaderValue::String(String::from_str(arguments[0].type_label())),
                        ),
                    )
                }
            },
            Builtin::Len => {
                if arguments.len() == 0 {
                    Err(String::from_str("len() requiere un argumento"))
                } else {
                    match &arguments[0] {
                        VaderValue::String(_) | VaderValue::List(_) | VaderValue::Dict(_) => Ok(
                            Computed::Value(
                                VaderValue::Number(crate::number::from_index(arguments[0].len())),
                            ),
                        ),
                        VaderValue::Object { class_name, fields } => Ok(
                            Computed::Value(
                                VaderValue::Number(crate::number::from_index(fields.len())),
                            ),
                        ),
                        _ => Err(
                            String::from_str(
                                "len() solo funciona con texto, listas, diccionarios u objetos",
                            ),
                        ),
                    }
                }
            },
            Builtin::Input => {
                let prompt = if arguments.len() == 0 {
                    None
                } else {
                    Some(plain_argument(&arguments[0]))
                };
                Ok(Computed::Pending { request: Request::Input { prompt }, completion: Completion::Line })
            },
            Builtin::ReadFile => {
                if arguments.len() == 0 {
                    Err(String::from_str("read_file() requiere un nombre de archivo"))
                } else {
                    let path = plain_argument(&arguments[0]);
                    Ok(
                        Computed::Pending {
                            request: Request::ReadFile { path: path.clone() },
                            completion: Completion::FileRead { path },
                        },
                    )
                }
            },
            Builtin::WriteFile => {
                if arguments.len() < 2 {
                    Err(String::from_str("write_file() requiere nombre de archivo y contenido"))
                } else {
                    let path = plain_argument(&arguments[0]);
                    let contents = plain_argument(&arguments[1]);
                    Ok(
                        Computed::Pending {
                            request: Request::WriteFile { path: path.clone(), contents },
                            completion: Completion::FileWritten { path },
                        },
                    )
                }
            },
            Builtin::Upper => {
                if arguments.len() == 0 {
                    Err(String::from_str("upper() requiere un argumento de texto"))
                } else {
                    let text = plain_argument(&arguments[0]);
                    Ok(Computed::Value(VaderValue::String(uppercase(text.as_str()))))
                }
            },
            Builtin::Lower => {
                if arguments.len() == 0 {
                    Err(String::from_str("lower() requiere un argumento de texto"))
                } else {
                    let text = plain_argument(&arguments[0]);
                    Ok(Computed::Value(VaderValue::String(lowercase(text.as_str()))))
                }
            },
            Builtin::Split => {
                if arguments.len() == 0 {
                    Err(String::from_str("split() requiere un texto"))
                } else {
                    let text = plain_argument(&arguments[0]);
                    let separator = if arguments.len() > 1 {
                        plain_argument(&arguments[1])
                    } else {
                        String::from_str(" ")
                    };
                    Ok(Computed::Value(text_list(split(text.as_str(), separator.as_str()))))
                }
            },
            Builtin::Abs => {
                if arguments.len() == 0 {
                    Err(String::from_str("abs() requiere un número"))
                } else {
                    match &arguments[0] {
                        VaderValue::Number(bits) => Ok(
                            Computed::Value(VaderValue::Number(crate::number::magnitude_of(*bits))),
                        ),
                        _ => Err(String::from_str("abs() solo funciona con números")),
                    }
                }
            },
            Builtin::Sqrt => {
                if arguments.len() == 0 {
                    Err(String::from_str("sqrt() requiere un número"))
                } else {
                    match &arguments[0] {
                        VaderValue::Number(bits) => {
                            if crate::number::is_less(*bits, 0) {
                                Err(
                                    String::from_str(
                                        "sqrt() no puede calcular raíz de número negativo",
                                    ),
                                )
                            } else {
                                Ok(
                                    Computed::Pending {
                                        request: Request::Arithmetic {
                                            op: NumberOp::SquareRoot,
                                            left: *bits,
                                            right: 0,
                                        },
                                        completion: Completion::Number,
                                    },
                                )
                            }
                        },
                        _ => Err(String::from_str("sqrt() solo funciona con números")),
                    }
                }
            },
            Builtin::Pow => {
                if arguments.len() < 2 {
                    Err(String::from_str("pow() requiere base y exponente"))
                } else {
                    match (&arguments[0], &arguments[1]) {
                        (VaderValue::Number(base), VaderValue::Number(exponent)) => Ok(
                            Computed::Pending {
                                request: Request::Arithmetic {
                                    op: NumberOp::Power,
                                    left: *base,
                                    right: *exponent,
                                },
                                completion: Completion::Number,
                            },
                        ),
                        _ => Err(String::from_str("pow() solo funciona con números")),
                    }
                }
            },
            Builtin::Random => Ok(
                Computed::Pending { request: Request::Random, completion: Completion::Number },
            ),
            Builtin::Push => {
                if arguments.len() < 2 {
                    Err(String::from_str("push() requiere lista y elemento"))
                } else {
                    match &arguments[0] {
                        VaderValue::List(items) => {
                            let mut longer = copy_values(items);
                            longer.push(arguments[1].copy());
                            let list = VaderValue::List(longer);
                            proof {
                                lemma_value_view(list);
                                assert(values_view(longer@) =~= values_view(items@).push(
                                    arguments@[1]@,
                                ));
                            }
                            Ok(Computed::Value(list))
                        },
                        _ => Err(String::from_str("push() solo funciona con listas")),
                    }
                }
            },
            Builtin::Pop => {
                if arguments.len() == 0 {
                    Err(String::from_str("pop() requiere una lista"))
                } else {
                    match &arguments[0] {
                        VaderValue::List(items) => {
                            if items.len() == 0 {
                                Err(String::from_str("No se puede hacer pop() de lista vacía"))
                            } else {
                                Ok(Computed::Value(items[items.len() - 1].copy()))
                            }
                        },
                        _ => Err(String::from_str("pop() solo funciona con listas")),
                    }
                }
            },
            Builtin::Reverse => {
                if arguments.len() == 0 {
                    Err(String::from_str("reverse() requiere una lista"))
                } else {
                    match &arguments[0] {
                        VaderValue::List(items) => {
                            let list = VaderValue::List(reversed(items));
                            proof {
                                lemma_value_view(list);
                            }
                            Ok(Computed::Value(list))
                        },
                        _ => Err(String::from_str("reverse() solo funciona con listas")),
                    }
                }
            },
            Builtin::Time => Ok(
                Computed::Pending { request: Request::Time, completion: Completion::Number },
            ),
            Builtin::Exit => {
                let code: i32 = if arguments.len() == 0 {
                    0
                } else {
                    match &arguments[0] {
                        VaderValue::Number(bits) => crate::number::to_i32(*bits),
                        _ => 0,
                    }
                };
                Ok(
                    Computed::Pending {
                        request: Request::Exit { code },
                        completion: Completion::Halt,
                    },
                )
            },
        }
    }
}

/// Where no argument is left to render, each of them has its text.
pub proof fn lemma_unrendered(arguments: Seq<ValueView>, count: int, from: int)
    requires
        0 <= from,
        unrendered(arguments, count, from) is None,
    ensures
        forall|i: int|
            from <= i < arguments.len() && i < count ==> plain_text(
                rendered(#[trigger] arguments[i]),
                0,
            ) is Some,
    decreases arguments.len() - from,
{
    if from < arguments.len() && from < count {
        lemma_unrendered(arguments, count, from + 1);
    }
}

/// The table of the builtin functions: each name with its builtin.
pub struct VaderStdlib {
    functions: Vec<(String, Builtin)>,
}

/// The names of the builtins of the language, each with its builtin.
pub open spec fn standard_table() -> Seq<(Seq<char>, Builtin)> {
    seq![
        ("print"@, Builtin::Print),
        ("decir"@, Builtin::Print),
        ("type"@, Builtin::Type),
        ("tipo"@, Builtin::Type),
        ("len"@, Builtin::Len),
        ("longitud"@, Builtin::Len),
        ("input"@, Builtin::Input),
        ("leer"@, Builtin::Input),
        ("read_file"@, Builtin::ReadFile),
        ("leer_archivo"@, Builtin::ReadFile),
        ("write_file"@, Builtin::WriteFile),
        ("escribir_archivo"@, Builtin::WriteFile),
        ("upper"@, Builtin::Upper),
        ("mayusculas"@, Builtin::Upper),
        ("lower"@, Builtin::Lower),
        ("minusculas"@, Builtin::Lower),
        ("split"@, Builtin::Split),
        ("abs"@, Builtin::Abs),
        ("sqrt"@, Builtin::Sqrt),
        ("pow"@, Builtin::Pow),
        ("random"@, Builtin::Random),
        ("push"@, Builtin::Push),
        ("pop"@, Builtin::Pop),
        ("reverse"@, Builtin::Reverse),
        ("time"@, Builtin::Time),
        ("exit"@, Builtin::Exit),
        ("salir"@, Builtin::Exit),
    ]
}

/// The model of a table.
pub open spec fn table_view(table: Seq<(String, Builtin)>) -> Seq<(Seq<char>, Builtin)> {
    Seq::new(table.len(), |i: int| (table[i].0@, table[i].1))
}

/// The builtin that the first entry from `from` on with the name holds.
pub open spec fn named(table: Seq<(Seq<char>, Builtin)>, name: Seq<char>, from: int) -> Option<
    Builtin,
>
    decreases table.len() - from,
{
    if from < 0 || from >= table.len() {
        None
    } else if table[from].0 == name {
        Some(table[from].1)
    } else {
        named(table, name, from + 1)
    }
}

/// The names of a table, in its order.
pub open spec fn names_of(table: Seq<(Seq<char>, Builtin)>) -> Seq<Seq<char>> {
    Seq::new(table.len(), |i: int| table[i].0)
}

impl VaderStdlib {
    /// The names of the table, each with its builtin.
    pub closed spec fn table(&self) -> Seq<(Seq<char>, Builtin)> {
        table_view(self.functions@)
    }

    /// The table of the builtins of the language.
    pub fn new() -> (stdlib: Self)
        ensures
            stdlib.table() == standard_table(),
    {
        let mut stdlib = Self { functions: Vec::new() };
        assert(stdlib.table() =~= Seq::<(Seq<char>, Builtin)>::empty());
        stdlib.register_core_functions();
        stdlib.register_io_functions();
        stdlib.register_string_functions();
        stdlib.register_math_functions();
        stdlib.register_collection_functions();
        stdlib.register_system_functions();
        assert(stdlib.table() =~= standard_table());
        stdlib
    }

    /// The builtin with the given name, if there is one.
    #[verifier::loop_isolation(false)]
    pub fn get_function(&self, name: &str) -> (found: Option<Builtin>)
        ensures
            found == named(self.table(), name@, 0),
    {
        let wanted = String::from_str(name);
        let mut at: usize = 0;
        while at < self.functions.len()
            invariant
                at <= self.functions.len(),
                named(self.table(), name@, 0) == named(self.table(), name@, at as int),
            decreases self.functions.len() - at,
        {
            if self.functions[at].0 == wanted {
                return Some(self.functions[at].1);
            }
            at = at + 1;
        }
        None
    }

    /// The names of the builtins.
    #[verifier::loop_isolation(false)]
    pub fn list_functions(&self) -> (names: Vec<String>)
        ensures
            strings_view(names@) == names_of(self.table()),
    {
        let mut names: Vec<String> = Vec::new();
        let mut at: usize = 0;
        while at < self.functions.len()
            invariant
                at <= self.functions.len(),
                strings_view(names@) =~= names_of(self.table()).subrange(0, at as int),
            decreases self.functions.len() - at,
        {
            names.push(self.functions[at].0.clone());
            at = at + 1;
        }
        assert(strings_view(names@) =~= names_of(self.table()));
        names
    }

    /// Adds a name for a builtin.
    fn register(&mut self, name: &str, builtin: Builtin)
        ensures
            final(self).table() == old(self).table().push((name@, builtin)),
    {
        self.functions.push((String::from_str(name), builtin));
        assert(self.table() =~= old(self).table().push((name@, builtin)));
    }

    /// `print`, `type` and `len`, each with its Spanish name.
    fn register_core_functions(&mut self)
        ensures
            final(self).table() == old(self).table() + seq![
                ("print"@, Builtin::Print),
                ("decir"@, Builtin::Print),
                ("type"@, Builtin::Type),
                ("tipo"@, Builtin::Type),
                ("len"@, Builtin::Len),
                ("longitud"@, Builtin::Len),
            ],
    {
        self.register("print", Builtin::Print);
        self.register("decir", Builtin::Print);
        self.register("type", Builtin::Type);
        self.register("tipo", Builtin::Type);
        self.register("len", Builtin::Len);
        self.register("longitud", Builtin::Len);
        assert(self.table() =~= old(self).table() + seq![
            ("print"@, Builtin::Print),
            ("decir"@, Builtin::Print),
            ("type"@, Builtin::Type),
            ("tipo"@, Builtin::Type),
            ("len"@, Builtin::Len),
            ("longitud"@, Builtin::Len),
        ]);
    }

    /// `input`, `read_file` and `write_file`, each with its Spanish name.
    fn register_io_functions(&mut self)
        ensures
            final(self).table() == old(self).table() + seq![
                ("input"@, Builtin::Input),
                ("leer"@, Builtin::Input),
                ("read_file"@, Builtin::ReadFile),
                ("leer_archivo"@, Builtin::ReadFile),
                ("write_file"@, Builtin::WriteFile),
                ("escribir_archivo"@, Builtin::WriteFile),
            ],
    {
        self.register("input", Builtin::Input);
        self.register("leer", Builtin::Input);
        self.register("read_file", Builtin::ReadFile);
        self.register("leer_archivo", Builtin::ReadFile);
        self.register("write_file", Builtin::WriteFile);
        self.register("escribir_archivo", Builtin::WriteFile);
        assert(self.table() =~= old(self).table() + seq![
            ("input"@, Builtin::Input),
            ("leer"@, Builtin::Input),
            ("read_file"@, Builtin::ReadFile),
            ("leer_archivo"@, Builtin::ReadFile),
            ("write_file"@, Builtin::WriteFile),
            ("escribir_archivo"@, Builtin::WriteFile),
        ]);
    }

    /// `upper` and `lower`, each with its Spanish name, and `split`.
    fn register_string_functions(&mut self)
        ensures
            final(self).table() == old(self).table() + seq![
                ("upper"@, Builtin::Upper),
                ("mayusculas"@, Builtin::Upper),
                ("lower"@, Builtin::Lower),
                ("minusculas"@, Builtin::Lower),
                ("split"@, Builtin::Split),
            ],
    {
        self.register("upper", Builtin::Upper);
        self.register("mayusculas", Builtin::Upper);
        self.register("lower", Builtin::Lower);
        self.register("minusculas", Builtin::Lower);
        self.register("split", Builtin::Split);
        assert(self.table() =~= old(self).table() + seq![
            ("upper"@, Builtin::Upper),
            ("mayusculas"@, Builtin::Upper),
            ("lower"@, Builtin::Lower),
            ("minusculas"@, Builtin::Lower),
            ("split"@, Builtin::Split),
        ]);
    }

    /// `abs`, `sqrt`, `pow` and `random`.
    fn register_math_functions(&mut self)
        ensures
            final(self).table() == old(self).table() + seq![
                ("abs"@, Builtin::Abs),
                ("sqrt"@, Builtin::Sqrt),
                ("pow"@, Builtin::Pow),
                ("random"@, Builtin::Random),
            ],
    {
        self.register("abs", Builtin::Abs);
        self.register("sqrt", Builtin::Sqrt);
        self.register("pow", Builtin::Pow);
        self.register("random", Builtin::Random);
        assert(self.table() =~= old(self).table() + seq![
            ("abs"@, Builtin::Abs),
            ("sqrt"@, Builtin::Sqrt),
            ("pow"@, Builtin::Pow),
            ("random"@, Builtin::Random),
        ]);
    }

    /// `push`, `pop` and `reverse`.
    fn register_collection_functions(&mut self)
        ensures
            final(self).table() == old(self).table() + seq![
                ("push"@, Builtin::Push),
                ("pop"@, Builtin::Pop),
                ("reverse"@, Builtin::Reverse),
            ],
    {
        self.register("push", Builtin::Push);
        self.register("pop", Builtin::Pop);
        self.register("reverse", Builtin::Reverse);
        assert(self.table() =~= old(self).table() + seq![
            ("push"@, Builtin::Push),
            ("pop"@, Builtin::Pop),
            ("reverse"@, Builtin::Reverse),
        ]);
    }

    /// `time`, and `exit` with its Spanish name.
    fn register_system_functions(&mut self)
        ensures
            final(self).table() == old(self).table() + seq![
                ("time"@, Builtin::Time),
                ("exit"@, Builtin::Exit),
                ("salir"@, Builtin::Exit),
            ],
    {
        self.register("time", Builtin::Time);
        self.register("exit", Builtin::Exit);
        self.register("salir", Builtin::Exit);
        assert(self.table() =~= old(self).table() + seq![
            ("time"@, Builtin::Time),
            ("exit"@, Builtin::Exit),
            ("salir"@, Builtin::Exit),
        ]);
    }
}

impl Default for VaderStdlib {
    fn default() -> (stdlib: Self)
        ensures
            stdlib.table() == standard_table(),
    {
        Self::new()
    }
}

} // verus!
