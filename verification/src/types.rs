//! The values of the language and the operations on them.
use vstd::prelude::*;
use vstd::arithmetic::div_mod::lemma_fundamental_div_mod;
use std::cmp::Ordering;
use crate::host::{
    Completion, CompletionView, Computed, ComputedView, NumberOp, PieceView, Request, RequestView,
    TextPiece, pieces_view, plain, plain_text, models,
};
use crate::number::{
    as_i64, as_index, from_int, is_finite, is_integral, is_nan, is_negative, is_zero, less,
    negated,
};
use crate::parser::{AstNode, NodeView, node_view, nodes_view, copy_nodes};
use crate::text::{
    strings_view, copy_strings, numeral, signed_numeral, numeral_of, signed_numeral_of, chars_of,
    text_of,
};

verus! {

/// A value of the language. A `Number` holds the bit pattern of an IEEE-754
/// binary64 number; a `Dict` and the fields of an `Object` hold their entries
/// in the order in which their keys were first set.
#[derive(Debug, PartialEq)]
#[allow(inconsistent_fields)]
pub enum VaderValue {
    Number(u64),
    String(String),
    Boolean(bool),
    Null,
    List(Vec<VaderValue>),
    Dict(Vec<(String, VaderValue)>),
    Function { name: String, params: Vec<String>, body: Vec<AstNode> },
    Object { class_name: String, fields: Vec<(String, VaderValue)> },
    Range { start: i64, end: i64, step: i64 },
}

/// The mathematical model of a value.
pub enum ValueView {
    Number(u64),
    String(Seq<char>),
    Boolean(bool),
    Null,
    List(Seq<ValueView>),
    Dict(Seq<(Seq<char>, ValueView)>),
    Function { name: Seq<char>, params: Seq<Seq<char>>, body: Seq<NodeView> },
    Object { class_name: Seq<char>, fields: Seq<(Seq<char>, ValueView)> },
    Range { start: i64, end: i64, step: i64 },
}

/// The model of a value. `VaderValue`'s view is this function.
pub open spec fn value_view(value: VaderValue) -> ValueView
    decreases value,
{
    match value {
        VaderValue::Number(bits) => ValueView::Number(bits),
        VaderValue::String(text) => ValueView::String(text@),
        VaderValue::Boolean(truth) => ValueView::Boolean(truth),
        VaderValue::Null => ValueView::Null,
        VaderValue::List(items) => ValueView::List(
            Seq::new(
                items@.len(),
                |i: int|
                    if 0 <= i < items@.len() {
                        value_view(items@[i])
                    } else {
                        arbitrary()
                    },
            ),
        ),
        VaderValue::Dict(entries) => ValueView::Dict(
            Seq::new(
                entries@.len(),
                |i: int|
                    if 0 <= i < entries@.len() {
                        (entries@[i].0@, value_view(entries@[i].1))
                    } else {
                        arbitrary()
                    },
            ),
        ),
        VaderValue::Function { name, params, body } => ValueView::Function {
            name: name@,
            params: strings_view(params@),
            body: Seq::new(
                body@.len(),
                |i: int|
                    if 0 <= i < body@.len() {
                        node_view(body@[i])
                    } else {
                        arbitrary()
                    },
            ),
        },
        VaderValue::Object { class_name, fields } => ValueView::Object {
            class_name: class_name@,
            fields: Seq::new(
                fields@.len(),
                |i: int|
                    if 0 <= i < fields@.len() {
                        (fields@[i].0@, value_view(fields@[i].1))
                    } else {
                        arbitrary()
                    },
            ),
        },
        VaderValue::Range { start, end, step } => ValueView::Range { start, end, step },
    }
}

impl View for VaderValue {
    type V = ValueView;

    open spec fn view(&self) -> ValueView {
        value_view(*self)
    }
}

/// The models of a sequence of values.
pub open spec fn values_view(values: Seq<VaderValue>) -> Seq<ValueView> {
    Seq::new(values.len(), |i: int| values[i]@)
}

/// The models of a sequence of named values.
pub open spec fn entries_view(entries: Seq<(String, VaderValue)>) -> Seq<(Seq<char>, ValueView)> {
    Seq::new(entries.len(), |i: int| (entries[i].0@, entries[i].1@))
}

/// The model of a value, written with the models of its parts.
pub open spec fn value_model(value: VaderValue) -> ValueView {
    match value {
        VaderValue::Number(bits) => ValueView::Number(bits),
        VaderValue::String(text) => ValueView::String(text@),
        VaderValue::Boolean(truth) => ValueView::Boolean(truth),
        VaderValue::Null => ValueView::Null,
        VaderValue::List(items) => ValueView::List(values_view(items@)),
        VaderValue::Dict(entries) => ValueView::Dict(entries_view(entries@)),
        VaderValue::Function { name, params, body } => ValueView::Function {
            name: name@,
            params: strings_view(params@),
            body: nodes_view(body@),
        },
        VaderValue::Object { class_name, fields } => ValueView::Object {
            class_name: class_name@,
            fields: entries_view(fields@),
        },
        VaderValue::Range { start, end, step } => ValueView::Range { start, end, step },
    }
}

/// A value's view is built from the views of its parts.
pub proof fn lemma_value_view(value: VaderValue)
    ensures
        value@ == value_model(value),
{
    match value {
        VaderValue::List(items) => {
            assert(value@->List_0 =~= values_view(items@));
        },
        VaderValue::Dict(entries) => {
            assert(value@->Dict_0 =~= entries_view(entries@));
        },
        VaderValue::Function { name, params, body } => {
            assert(value@->Function_body =~= nodes_view(body@));
        },
        VaderValue::Object { class_name, fields } => {
            assert(value@->Object_fields =~= entries_view(fields@));
        },
        _ => {},
    }
}

/// A copy of a sequence of values.
#[verifier::loop_isolation(false)]
pub fn copy_values(values: &Vec<VaderValue>) -> (copy: Vec<VaderValue>)
    ensures
        values_view(copy@) == values_view(values@),
    decreases values,
{
    let mut copy: Vec<VaderValue> = Vec::new();
    let mut at: usize = 0;
    while at < values.len()
        invariant
            at <= values.len(),
            values_view(copy@) =~= values_view(values@).subrange(0, at as int),
        decreases values.len() - at,
    {
        copy.push(values[at].copy());
        at = at + 1;
    }
    assert(values_view(copy@) =~= values_view(values@));
    copy
}

/// A copy of a sequence of named values.
#[verifier::loop_isolation(false)]
pub fn copy_entries(entries: &Vec<(String, VaderValue)>) -> (copy: Vec<(String, VaderValue)>)
    ensures
        entries_view(copy@) == entries_view(entries@),
    decreases entries,
{
    let mut copy: Vec<(String, VaderValue)> = Vec::new();
    let mut at: usize = 0;
    while at < entries.len()
        invariant
            at <= entries.len(),
            entries_view(copy@) =~= entries_view(entries@).subrange(0, at as int),
        decreases entries.len() - at,
    {
        let name = entries[at].0.clone();
        let value = entries[at].1.copy();
        copy.push((name, value));
        at = at + 1;
    }
    assert(entries_view(copy@) =~= entries_view(entries@));
    copy
}

impl VaderValue {
    /// A copy of the value, with the same view.
    pub fn copy(&self) -> (copy: VaderValue)
        ensures
            copy@ == self@,
        decreases self,
    {
        let copy = match self {
            VaderValue::Number(bits) => VaderValue::Number(*bits),
            VaderValue::String(text) => VaderValue::String(text.clone()),
            VaderValue::Boolean(truth) => VaderValue::Boolean(*truth),
            VaderValue::Null => VaderValue::Null,
            VaderValue::List(items) => VaderValue::List(copy_values(items)),
            VaderValue::Dict(entries) => VaderValue::Dict(copy_entries(entries)),
            VaderValue::Function { name, params, body } => VaderValue::Function {
                name: name.clone(),
                params: copy_strings(params),
                body: copy_nodes(body),
            },
            VaderValue::Object { class_name, fields } => VaderValue::Object {
                class_name: class_name.clone(),
                fields: copy_entries(fields),
            },
            VaderValue::Range { start, end, step } => VaderValue::Range {
                start: *start,
                end: *end,
                step: *step,
            },
        };
        proof {
            lemma_value_view(copy);
            lemma_value_view(*self);
        }
        copy
    }
}

impl Clone for VaderValue {
    fn clone(&self) -> (copy: Self)
        ensures
            copy@ == self@,
    {
        self.copy()
    }
}

} // verus!

verus! {

/// Why an operation on values failed.
#[derive(Debug, Clone, PartialEq)]
pub enum TypeError {
    IncompatibleType { expected: String, found: String },
    UnsupportedOperation { operation: String, type_label: String },
    IndexOutOfRange { index: String },
    MemberNotFound { member: String, type_label: String },
    DivisionByZero,
    KeyError { key: String },
}

pub enum TypeErrorView {
    IncompatibleType { expected: Seq<char>, found: Seq<char> },
    UnsupportedOperation { operation: Seq<char>, type_label: Seq<char> },
    IndexOutOfRange { index: Seq<char> },
    MemberNotFound { member: Seq<char>, type_label: Seq<char> },
    DivisionByZero,
    KeyError { key: Seq<char> },
}

impl View for TypeError {
    type V = TypeErrorView;

    open spec fn view(&self) -> TypeErrorView {
        match self {
            TypeError::IncompatibleType { expected, found } => TypeErrorView::IncompatibleType {
                expected: expected@,
                found: found@,
            },
            TypeError::UnsupportedOperation { operation, type_label } => TypeErrorView::UnsupportedOperation {
                operation: operation@,
                type_label: type_label@,
            },
            TypeError::IndexOutOfRange { index } => TypeErrorView::IndexOutOfRange { index: index@ },
            TypeError::MemberNotFound { member, type_label } => TypeErrorView::MemberNotFound {
                member: member@,
                type_label: type_label@,
            },
            TypeError::DivisionByZero => TypeErrorView::DivisionByZero,
            TypeError::KeyError { key } => TypeErrorView::KeyError { key: key@ },
        }
    }
}

/// The one-line diagnostic of an error.
pub open spec fn type_error_message(error: TypeErrorView) -> Seq<char> {
    match error {
        TypeErrorView::IncompatibleType { expected, found } => "Tipo incompatible: esperado "@
            + expected + ", encontrado "@ + found,
        TypeErrorView::UnsupportedOperation { operation, type_label } => "Operación no soportada: "@
            + operation + " en tipo "@ + type_label,
        TypeErrorView::IndexOutOfRange { index } => "Índice fuera de rango: "@ + index,
        TypeErrorView::MemberNotFound { member, type_label } => "Miembro no encontrado: "@ + member
            + " en "@ + type_label,
        TypeErrorView::DivisionByZero => "División por cero"@,
        TypeErrorView::KeyError { key } => "Clave no encontrada: "@ + key,
    }
}

impl TypeError {
    /// The one-line diagnostic of the error.
    pub fn message(&self) -> (text: String)
        ensures
            text@ == type_error_message(self@),
    {
        match self {
            TypeError::IncompatibleType { expected, found } => {
                let mut text = String::from_str("Tipo incompatible: esperado ");
                text.append(expected.as_str());
                text.append(", encontrado ");
                text.append(found.as_str());
                text
            },
            TypeError::UnsupportedOperation { operation, type_label } => {
                let mut text = String::from_str("Operación no soportada: ");
                text.append(operation.as_str());
                text.append(" en tipo ");
                text.append(type_label.as_str());
                text
            },
            TypeError::IndexOutOfRange { index } => {
                let mut text = String::from_str("Índice fuera de rango: ");
                text.append(index.as_str());
                text
            },
            TypeError::MemberNotFound { member, type_label } => {
                let mut text = String::from_str("Miembro no encontrado: ");
                text.append(member.as_str());
                text.append(" en ");
                text.append(type_label.as_str());
                text
            },
            TypeError::DivisionByZero => String::from_str("División por cero"),
            TypeError::KeyError { key } => {
                let mut text = String::from_str("Clave no encontrada: ");
                text.append(key.as_str());
                text
            },
        }
    }
}

/// The name of a value's type, as the language shows it.
pub open spec fn type_label_of(value: ValueView) -> Seq<char> {
    match value {
        ValueView::Number(_) => "numero"@,
        ValueView::String(_) => "texto"@,
        ValueView::Boolean(_) => "booleano"@,
        ValueView::Null => "nulo"@,
        ValueView::List(_) => "lista"@,
        ValueView::Dict(_) => "diccionario"@,
        ValueView::Function { .. } => "funcion"@,
        ValueView::Object { .. } => "objeto"@,
        ValueView::Range { .. } => "rango"@,
    }
}

/// Whether a condition with this value holds.
pub open spec fn truthy(value: ValueView) -> bool {
    match value {
        ValueView::Boolean(truth) => truth,
        ValueView::Null => false,
        ValueView::Number(bits) => !is_zero(bits),
        ValueView::String(text) => text.len() > 0,
        ValueView::List(items) => items.len() > 0,
        ValueView::Dict(entries) => entries.len() > 0,
        _ => true,
    }
}

/// The number of characters, items or entries; 0 for a value that has none.
pub open spec fn length_of(value: ValueView) -> nat {
    match value {
        ValueView::String(text) => text.len(),
        ValueView::List(items) => items.len(),
        ValueView::Dict(entries) => entries.len(),
        _ => 0,
    }
}

/// Whether `iter` yields the items of this value.
pub open spec fn iterable(value: ValueView) -> bool {
    value is List || value is Dict || value is String || value is Range
}

/// The first `count` texts, with the separator between them.
pub open spec fn joined(texts: Seq<Seq<char>>, separator: Seq<char>, count: nat) -> Seq<char>
    decreases count,
{
    if count == 0 || count > texts.len() {
        Seq::empty()
    } else if count == 1 {
        texts[0]
    } else {
        joined(texts, separator, (count - 1) as nat) + separator + texts[count - 1]
    }
}

/// The pieces of a number's text: its integer numeral if it has no
/// fractional part, `NaN`, `inf` or `-inf` if it is not finite, and else the
/// number itself.
pub open spec fn number_pieces(bits: u64) -> Seq<PieceView> {
    if is_integral(bits) {
        seq![PieceView::Plain(signed_numeral(as_i64(bits) as int))]
    } else if is_nan(bits) {
        seq![PieceView::Plain("NaN"@)]
    } else if !is_finite(bits) {
        if is_negative(bits) {
            seq![PieceView::Plain("-inf"@)]
        } else {
            seq![PieceView::Plain("inf"@)]
        }
    } else {
        seq![PieceView::Fraction(bits)]
    }
}

/// The text of a function: its name and its parameters.
pub open spec fn function_text(name: Seq<char>, params: Seq<Seq<char>>) -> Seq<char> {
    "funcion "@ + name + "("@ + joined(params, ", "@, params.len()) + ")"@
}

/// The text of a range.
pub open spec fn range_text(start: i64, end: i64, step: i64) -> Seq<char> {
    "rango("@ + signed_numeral(start as int) + ", "@ + signed_numeral(end as int) + ", "@
        + signed_numeral(step as int) + ")"@
}

/// The pieces of the display form of a value.
pub open spec fn rendered(value: ValueView) -> Seq<PieceView>
    decreases value, 0nat,
{
    match value {
        ValueView::Number(bits) => number_pieces(bits),
        ValueView::String(text) => seq![PieceView::Plain(text)],
        ValueView::Boolean(truth) => if truth {
            seq![PieceView::Plain("verdadero"@)]
        } else {
            seq![PieceView::Plain("falso"@)]
        },
        ValueView::Null => seq![PieceView::Plain("nulo"@)],
        ValueView::List(items) => seq![PieceView::Plain("["@)] + rendered_items(items, items.len())
            + seq![PieceView::Plain("]"@)],
        ValueView::Dict(entries) => seq![PieceView::Plain("{"@)] + rendered_entries(
            entries,
            entries.len(),
        ) + seq![PieceView::Plain("}"@)],
        ValueView::Function { name, params, body } => seq![
            PieceView::Plain(function_text(name, params)),
        ],
        ValueView::Object { class_name, fields } => seq![
            PieceView::Plain("objeto de "@ + class_name),
        ],
        ValueView::Range { start, end, step } => seq![
            PieceView::Plain(range_text(start, end, step)),
        ],
    }
}

/// The pieces of the first `count` items, with `, ` between them.
pub open spec fn rendered_items(items: Seq<ValueView>, count: nat) -> Seq<PieceView>
    decreases items, count,
{
    if count == 0 || count > items.len() {
        Seq::empty()
    } else if count == 1 {
        rendered(items[0])
    } else {
        rendered_items(items, (count - 1) as nat) + seq![PieceView::Plain(", "@)] + rendered(
            items[count - 1],
        )
    }
}

/// The pieces of the first `count` entries, each as `key: value`, with `, `
/// between them.
pub open spec fn rendered_entries(
    entries: Seq<(Seq<char>, ValueView)>,
    count: nat,
) -> Seq<PieceView>
    decreases entries, count,
{
    if count == 0 || count > entries.len() {
        Seq::empty()
    } else if count == 1 {
        seq![PieceView::Plain(entries[0].0 + ": "@)] + rendered(entries[0].1)
    } else {
        rendered_entries(entries, (count - 1) as nat) + seq![
            PieceView::Plain(", "@ + entries[count - 1].0 + ": "@),
        ] + rendered(entries[count - 1].1)
    }
}

/// Appends a piece of literal text.
fn push_plain(pieces: &mut Vec<TextPiece>, text: String)
    ensures
        pieces_view(final(pieces)@) == pieces_view(old(pieces)@) + seq![PieceView::Plain(text@)],
{
    pieces.push(TextPiece::Plain(text));
    assert(pieces_view(pieces@) =~= pieces_view(old(pieces)@) + seq![PieceView::Plain(text@)]);
}

/// Appends the pieces of a number's text.
fn push_number(pieces: &mut Vec<TextPiece>, bits: u64)
    ensures
        pieces_view(final(pieces)@) == pieces_view(old(pieces)@) + number_pieces(bits),
{
    if crate::number::integral(bits) {
        push_plain(pieces, signed_numeral_of(crate::number::to_i64(bits)));
    } else if crate::number::nan(bits) {
        push_plain(pieces, String::from_str("NaN"));
    } else if crate::number::magnitude_of(bits) >= crate::number::INFINITY {
        if crate::number::negative(bits) {
            push_plain(pieces, String::from_str("-inf"));
        } else {
            push_plain(pieces, String::from_str("inf"));
        }
    } else {
        pieces.push(TextPiece::Fraction(bits));
        assert(pieces_view(pieces@) =~= pieces_view(old(pieces)@) + number_pieces(bits));
    }
}

/// The texts joined with `, `.
#[verifier::loop_isolation(false)]
fn join_names(names: &Vec<String>) -> (text: String)
    ensures
        text@ == joined(strings_view(names@), ", "@, names@.len()),
{
    let mut text = String::new();
    let mut at: usize = 0;
    assert(text@ =~= joined(strings_view(names@), ", "@, 0));
    while at < names.len()
        invariant
            at <= names.len(),
            text@ == joined(strings_view(names@), ", "@, at as nat),
        decreases names.len() - at,
    {
        if at > 0 {
            text.append(", ");
        }
        text.append(names[at].as_str());
        at = at + 1;
        assert(text@ =~= joined(strings_view(names@), ", "@, at as nat));
    }
    text
}

impl VaderValue {
    /// The name of the value's type.
    pub fn type_label(&self) -> (name: &'static str)
        ensures
            name@ == type_label_of(self@),
    {
        match self {
            VaderValue::Number(_) => "numero",
            VaderValue::String(_) => "texto",
            VaderValue::Boolean(_) => "booleano",
            VaderValue::Null => "nulo",
            VaderValue::List(_) => "lista",
            VaderValue::Dict(_) => "diccionario",
            VaderValue::Function { .. } => "funcion",
            VaderValue::Object { .. } => "objeto",
            VaderValue::Range { .. } => "rango",
        }
    }

    /// Whether a condition with this value holds.
    pub fn is_truthy(&self) -> (truth: bool)
        ensures
            truth == truthy(self@),
    {
        proof {
            lemma_value_view(*self);
        }
        match self {
            VaderValue::Boolean(truth) => *truth,
            VaderValue::Null => false,
            VaderValue::Number(bits) => !crate::number::zero(*bits),
            VaderValue::String(text) => !text.as_str().is_empty(),
            VaderValue::List(items) => items.len() > 0,
            VaderValue::Dict(entries) => entries.len() > 0,
            _ => true,
        }
    }

    /// The pieces of the display form: a number without a fractional part
    /// as an integer, the booleans as `verdadero` and `falso`, the null
    /// value as `nulo`, a list as `[a, b]`, a dictionary as `{k: v}`.
    pub fn to_string(&self) -> (pieces: Vec<TextPiece>)
        ensures
            pieces_view(pieces@) == rendered(self@),
    {
        let mut pieces: Vec<TextPiece> = Vec::new();
        self.render_into(&mut pieces);
        assert(pieces_view(pieces@) =~= rendered(self@));
        pieces
    }

    /// Appends the pieces of the display form.
    #[verifier::loop_isolation(false)]
    pub fn render_into(&self, pieces: &mut Vec<TextPiece>)
        ensures
            pieces_view(final(pieces)@) == pieces_view(old(pieces)@) + rendered(self@),
        decreases self,
    {
        proof {
            lemma_value_view(*self);
        }
        let ghost start = pieces_view(pieces@);
        match self {
            VaderValue::Number(bits) => push_number(pieces, *bits),
            VaderValue::String(text) => push_plain(pieces, text.clone()),
            VaderValue::Boolean(truth) => {
                if *truth {
                    push_plain(pieces, String::from_str("verdadero"));
                } else {
                    push_plain(pieces, String::from_str("falso"));
                }
            },
            VaderValue::Null => push_plain(pieces, String::from_str("nulo")),
            VaderValue::List(items) => {
                push_plain(pieces, String::from_str("["));
                let ghost open = pieces_view(pieces@);
                let ghost models = values_view(items@);
                let mut at: usize = 0;
                assert(pieces_view(pieces@) =~= open + rendered_items(models, 0));
                while at < items.len()
                    invariant
                        at <= items.len(),
                        pieces_view(pieces@) == open + rendered_items(models, at as nat),
                    decreases items.len() - at,
                {
                    if at > 0 {
                        push_plain(pieces, String::from_str(", "));
                    }
                    items[at].render_into(pieces);
                    at = at + 1;
                    assert(pieces_view(pieces@) =~= open + rendered_items(models, at as nat));
                }
                push_plain(pieces, String::from_str("]"));
                assert(pieces_view(pieces@) =~= start + rendered(self@));
            },
            VaderValue::Dict(entries) => {
                push_plain(pieces, String::from_str("{"));
                let ghost open = pieces_view(pieces@);
                let ghost models = entries_view(entries@);
                let mut at: usize = 0;
                assert(pieces_view(pieces@) =~= open + rendered_entries(models, 0));
                while at < entries.len()
                    invariant
                        at <= entries.len(),
                        pieces_view(pieces@) == open + rendered_entries(models, at as nat),
                    decreases entries.len() - at,
                {
                    let mut label = if at > 0 {
                        String::from_str(", ")
                    } else {
                        String::new()
                    };
                    label.append(entries[at].0.as_str());
                    label.append(": ");
                    assert(at == 0 ==> label@ =~= models[0].0 + ": "@);
                    push_plain(pieces, label);
                    entries[at].1.render_into(pieces);
                    at = at + 1;
                    assert(pieces_view(pieces@) =~= open + rendered_entries(models, at as nat));
                }
                push_plain(pieces, String::from_str("}"));
                assert(pieces_view(pieces@) =~= start + rendered(self@));
            },
            VaderValue::Function { name, params, body } => {
                let mut text = String::from_str("funcion ");
                text.append(name.as_str());
                text.append("(");
                text.append(join_names(params).as_str());
                text.append(")");
                push_plain(pieces, text);
            },
            VaderValue::Object { class_name, fields } => {
                let mut text = String::from_str("objeto de ");
                text.append(class_name.as_str());
                push_plain(pieces, text);
            },
            VaderValue::Range { start, end, step } => {
                let mut text = String::from_str("rango(");
                text.append(signed_numeral_of(*start).as_str());
                text.append(", ");
                text.append(signed_numeral_of(*end).as_str());
                text.append(", ");
                text.append(signed_numeral_of(*step).as_str());
                text.append(")");
                push_plain(pieces, text);
            },
        }
    }

    /// The number of characters of a string, items of a list or entries of
    /// a dictionary; 0 for any other value.
    pub fn len(&self) -> (count: usize)
        ensures
            count == length_of(self@),
    {
        proof {
            lemma_value_view(*self);
        }
        match self {
            VaderValue::String(text) => text.as_str().unicode_len(),
            VaderValue::List(items) => items.len(),
            VaderValue::Dict(entries) => entries.len(),
            _ => 0,
        }
    }

    /// Whether `iter` yields the items of this value.
    pub fn is_iterable(&self) -> (yes: bool)
        ensures
            yes == iterable(self@),
    {
        match self {
            VaderValue::List(_) => true,
            VaderValue::Dict(_) => true,
            VaderValue::String(_) => true,
            VaderValue::Range { .. } => true,
            _ => false,
        }
    }

    /// The range from `start` up to `end`, in steps of one.
    pub fn range(start: i64, end: i64) -> (value: VaderValue)
        ensures
            value@ == (ValueView::Range { start, end, step: 1 }),
    {
        VaderValue::Range { start, end, step: 1 }
    }

    /// The range from `start` toward `end`, in steps of `step`.
    pub fn range_with_step(start: i64, end: i64, step: i64) -> (value: VaderValue)
        requires
            step != 0,
        ensures
            value@ == (ValueView::Range { start, end, step }),
    {
        VaderValue::Range { start, end, step }
    }

    /// The list without items.
    pub fn empty_list() -> (value: VaderValue)
        ensures
            value@ == ValueView::List(Seq::empty()),
    {
        let value = VaderValue::List(Vec::new());
        proof {
            lemma_value_view(value);
            assert(values_view(Seq::<VaderValue>::empty()) =~= Seq::<ValueView>::empty());
        }
        value
    }

    /// The dictionary without entries.
    pub fn empty_dict() -> (value: VaderValue)
        ensures
            value@ == ValueView::Dict(Seq::empty()),
    {
        let value = VaderValue::Dict(Vec::new());
        proof {
            lemma_value_view(value);
            assert(entries_view(Seq::<(String, VaderValue)>::empty()) =~= Seq::<
                (Seq<char>, ValueView),
            >::empty());
        }
        value
    }

    pub fn from_bool(truth: bool) -> (value: VaderValue)
        ensures
            value@ == ValueView::Boolean(truth),
    {
        VaderValue::Boolean(truth)
    }

    pub fn from_str(text: &str) -> (value: VaderValue)
        ensures
            value@ == ValueView::String(text@),
    {
        VaderValue::String(String::from_str(text))
    }

    /// The number with the given binary64 bit pattern.
    pub fn from_number(bits: u64) -> (value: VaderValue)
        ensures
            value@ == ValueView::Number(bits),
    {
        VaderValue::Number(bits)
    }
}

} // verus!

verus! {

/// The index of the first entry from `from` on that has the key.
pub open spec fn position(
    entries: Seq<(Seq<char>, ValueView)>,
    key: Seq<char>,
    from: int,
) -> Option<int>
    decreases entries.len() - from,
{
    if from < 0 || from >= entries.len() {
        None
    } else if entries[from].0 == key {
        Some(from)
    } else {
        position(entries, key, from + 1)
    }
}

/// The value that the entries give the key.
pub open spec fn lookup(entries: Seq<(Seq<char>, ValueView)>, key: Seq<char>) -> Option<ValueView> {
    match position(entries, key, 0) {
        Some(at) => Some(entries[at].1),
        None => None,
    }
}

/// The entries with the key set to the value: in the place of the entry
/// that had the key, or at the end.
pub open spec fn with_entry(
    entries: Seq<(Seq<char>, ValueView)>,
    key: Seq<char>,
    value: ValueView,
) -> Seq<(Seq<char>, ValueView)> {
    match position(entries, key, 0) {
        Some(at) => entries.update(at, (key, value)),
        None => entries.push((key, value)),
    }
}

/// Whether no two entries have the same key.
pub open spec fn distinct_keys(entries: Seq<(Seq<char>, ValueView)>) -> bool {
    forall|i: int, j: int|
        0 <= i < j < entries.len() ==> (#[trigger] entries[i]).0 != (#[trigger] entries[j]).0
}

/// The position that `position` finds is the first with the key.
pub proof fn lemma_position(entries: Seq<(Seq<char>, ValueView)>, key: Seq<char>, from: int)
    requires
        0 <= from,
    ensures
        match position(entries, key, from) {
            Some(at) => from <= at < entries.len() && entries[at].0 == key && forall|i: int|
                from <= i < at ==> (#[trigger] entries[i]).0 != key,
            None => forall|i: int| from <= i < entries.len() ==> (#[trigger] entries[i]).0 != key,
        },
    decreases entries.len() - from,
{
    if from < entries.len() && entries[from].0 != key {
        lemma_position(entries, key, from + 1);
    }
}

/// Setting a key keeps the keys distinct, and the key then has the value.
pub proof fn lemma_with_entry(entries: Seq<(Seq<char>, ValueView)>, key: Seq<char>, value: ValueView)
    ensures
        distinct_keys(entries) ==> distinct_keys(with_entry(entries, key, value)),
        lookup(with_entry(entries, key, value), key) == Some(value),
        forall|other: Seq<char>|
            other != key ==> lookup(with_entry(entries, key, value), other) == lookup(entries, other),
{
    let after = with_entry(entries, key, value);
    lemma_position(entries, key, 0);
    lemma_position(after, key, 0);
    match position(entries, key, 0) {
        Some(at) => {
            assert(after[at].0 == key);
            assert forall|i: int| 0 <= i < at implies (#[trigger] after[i]).0 != key by {
                assert(entries[i].0 != key);
            }
        },
        None => {
            assert(after[entries.len() as int].0 == key);
            assert forall|i: int| 0 <= i < entries.len() implies (#[trigger] after[i]).0 != key by {
                assert(entries[i].0 != key);
            }
        },
    }
    assert forall|other: Seq<char>| other != key implies lookup(after, other) == lookup(
        entries,
        other,
    ) by {
        lemma_position(entries, other, 0);
        lemma_position(after, other, 0);
        match position(entries, other, 0) {
            Some(at) => {
                assert(after[at] == entries[at]);
                assert forall|i: int| 0 <= i < at implies (#[trigger] after[i]).0 != other by {
                    assert(entries[i].0 != other);
                }
            },
            None => {
                assert forall|i: int| 0 <= i < after.len() implies (#[trigger] after[i]).0
                    != other by {
                    if i < entries.len() {
                        assert(entries[i].0 != other);
                    }
                }
            },
        }
    }
    if distinct_keys(entries) {
        assert forall|i: int, j: int| 0 <= i < j < after.len() implies (#[trigger] after[i]).0 != (
        #[trigger] after[j]).0 by {
            if i < entries.len() {
                assert(entries[i].0 == entries[i].0);
            }
            if j < entries.len() {
                assert(entries[j].0 == entries[j].0);
            }
        }
    }
}

/// The index of the first entry with the key.
#[verifier::loop_isolation(false)]
pub fn find_entry(entries: &Vec<(String, VaderValue)>, key: &String) -> (found: Option<usize>)
    ensures
        match found {
            Some(at) => position(entries_view(entries@), key@, 0) == Some(at as int) && at
                < entries@.len(),
            None => position(entries_view(entries@), key@, 0) is None,
        },
{
    let mut at: usize = 0;
    while at < entries.len()
        invariant
            at <= entries.len(),
            position(entries_view(entries@), key@, 0) == position(
                entries_view(entries@),
                key@,
                at as int,
            ),
        decreases entries.len() - at,
    {
        if entries[at].0 == *key {
            return Some(at);
        }
        at = at + 1;
    }
    None
}

/// Sets the key to the value.
pub fn put_entry(entries: &mut Vec<(String, VaderValue)>, key: String, value: VaderValue)
    ensures
        entries_view(final(entries)@) == with_entry(entries_view(old(entries)@), key@, value@),
{
    match find_entry(entries, &key) {
        Some(at) => {
            entries.set(at, (key, value));
            assert(entries_view(entries@) =~= with_entry(
                entries_view(old(entries)@),
                key@,
                value@,
            ));
        },
        None => {
            entries.push((key, value));
            assert(entries_view(entries@) =~= with_entry(
                entries_view(old(entries)@),
                key@,
                value@,
            ));
        },
    }
}

/// A request for the arithmetic `left op right`, whose answer is the value.
pub open spec fn arithmetic(op: NumberOp, left: u64, right: u64) -> ComputedView {
    ComputedView::Pending {
        request: RequestView::Arithmetic { op, left, right },
        completion: CompletionView::Number,
    }
}

/// The string with the text of the pieces: at once if they are all literal
/// text, else once the driver has rendered them.
pub open spec fn text_value(pieces: Seq<PieceView>) -> ComputedView {
    match plain_text(pieces, 0) {
        Some(text) => ComputedView::Value(ValueView::String(text)),
        None => ComputedView::Pending {
            request: RequestView::Render { pieces },
            completion: CompletionView::Text,
        },
    }
}

/// The failure of an operation that these two values do not support.
pub open spec fn unsupported(
    operation: Seq<char>,
    left: ValueView,
    right: ValueView,
) -> TypeErrorView {
    TypeErrorView::UnsupportedOperation {
        operation,
        type_label: type_label_of(left) + " y "@ + type_label_of(right),
    }
}

/// `text`, `count` times over.
pub open spec fn repeated(text: Seq<char>, count: nat) -> Seq<char>
    decreases count,
{
    if count == 0 {
        Seq::empty()
    } else {
        repeated(text, (count - 1) as nat) + text
    }
}

/// `left + right`: the sum of two numbers, the text of a string followed by
/// the display form of any value, or two lists joined.
pub open spec fn sum_of(left: ValueView, right: ValueView) -> Result<ComputedView, TypeErrorView> {
    match (left, right) {
        (ValueView::Number(a), ValueView::Number(b)) => Ok(arithmetic(NumberOp::Add, a, b)),
        (ValueView::String(a), _) => Ok(text_value(seq![PieceView::Plain(a)] + rendered(right))),
        (ValueView::List(a), ValueView::List(b)) => Ok(ComputedView::Value(ValueView::List(a + b))),
        _ => Err(unsupported("sumar"@, left, right)),
    }
}

/// An operation that only two numbers support.
pub open spec fn numeric(
    op: NumberOp,
    verb: Seq<char>,
    left: ValueView,
    right: ValueView,
) -> Result<
    ComputedView,
    TypeErrorView,
> {
    match (left, right) {
        (ValueView::Number(a), ValueView::Number(b)) => Ok(arithmetic(op, a, b)),
        _ => Err(unsupported(verb, left, right)),
    }
}

/// Whether a string can be repeated this number of times: the number is
/// zero or positive and has no fractional part.
pub open spec fn is_count(bits: u64) -> bool {
    is_integral(bits) && (!is_negative(bits) || is_zero(bits))
}

/// `left * right`: the product of two numbers, or a string repeated.
pub open spec fn product_of(
    left: ValueView,
    right: ValueView,
) -> Result<ComputedView, TypeErrorView> {
    match (left, right) {
        (ValueView::Number(a), ValueView::Number(b)) => Ok(arithmetic(NumberOp::Multiply, a, b)),
        (ValueView::String(text), ValueView::Number(n)) => if is_count(n) {
            Ok(ComputedView::Value(ValueView::String(repeated(text, as_index(n) as nat))))
        } else {
            Err(
                TypeErrorView::IncompatibleType {
                    expected: "entero positivo"@,
                    found: "numero"@,
                },
            )
        },
        _ => Err(unsupported("multiplicar"@, left, right)),
    }
}

/// `left / right` or `left % right`: only for two numbers, and not by zero.
pub open spec fn divided(
    op: NumberOp,
    verb: Seq<char>,
    left: ValueView,
    right: ValueView,
) -> Result<
    ComputedView,
    TypeErrorView,
> {
    match (left, right) {
        (ValueView::Number(a), ValueView::Number(b)) => if is_zero(b) {
            Err(TypeErrorView::DivisionByZero)
        } else {
            Ok(arithmetic(op, a, b))
        },
        _ => Err(unsupported(verb, left, right)),
    }
}

/// Whether two values are equal. Values of different types never are; two
/// numbers are if the driver finds their difference below the machine
/// epsilon.
pub open spec fn equality_of(left: ValueView, right: ValueView) -> ComputedView {
    match (left, right) {
        (ValueView::Number(a), ValueView::Number(b)) => ComputedView::Pending {
            request: RequestView::Arithmetic { op: NumberOp::Subtract, left: a, right: b },
            completion: CompletionView::Equality { negated: false },
        },
        (ValueView::String(a), ValueView::String(b)) => ComputedView::Value(ValueView::Boolean(a == b)),
        (ValueView::Boolean(a), ValueView::Boolean(b)) => ComputedView::Value(
            ValueView::Boolean(a == b),
        ),
        (ValueView::Null, ValueView::Null) => ComputedView::Value(ValueView::Boolean(true)),
        _ => ComputedView::Value(ValueView::Boolean(false)),
    }
}

/// How two texts are ordered from position `from` on, character by
/// character: -1, 0 or 1.
pub open spec fn text_order(left: Seq<char>, right: Seq<char>, from: int) -> int
    decreases left.len() - from,
{
    if from < 0 {
        0
    } else if from >= left.len() {
        if from >= right.len() {
            0
        } else {
            -1
        }
    } else if from >= right.len() {
        1
    } else if (left[from] as u32) < (right[from] as u32) {
        -1
    } else if (left[from] as u32) > (right[from] as u32) {
        1
    } else {
        text_order(left, right, from + 1)
    }
}

/// How two numbers are ordered: -1, 0 or 1, and 0 if one is a NaN.
pub open spec fn number_order(left: u64, right: u64) -> int {
    if less(left, right) {
        -1
    } else if less(right, left) {
        1
    } else {
        0
    }
}

/// How two values are ordered: -1, 0 or 1. Only two numbers or two strings
/// are ordered.
pub open spec fn order_of(left: ValueView, right: ValueView) -> Result<int, TypeErrorView> {
    match (left, right) {
        (ValueView::Number(a), ValueView::Number(b)) => Ok(number_order(a, b)),
        (ValueView::String(a), ValueView::String(b)) => Ok(text_order(a, b, 0)),
        _ => Err(unsupported("comparar"@, left, right)),
    }
}

/// A comparison that holds for the orders that `holds` accepts.
pub open spec fn compared(left: ValueView, right: ValueView, holds: spec_fn(int) -> bool) -> Result<
    ValueView,
    TypeErrorView,
> {
    match order_of(left, right) {
        Ok(order) => Ok(ValueView::Boolean(holds(order))),
        Err(error) => Err(error),
    }
}

/// `-value`: a number negated, or a boolean inverted.
pub open spec fn negation_of(value: ValueView) -> Result<ValueView, TypeErrorView> {
    match value {
        ValueView::Number(bits) => Ok(ValueView::Number(negated(bits))),
        ValueView::Boolean(truth) => Ok(ValueView::Boolean(!truth)),
        _ => Err(
            TypeErrorView::UnsupportedOperation {
                operation: "negar"@,
                type_label: type_label_of(value),
            },
        ),
    }
}

/// The place that a number names among `length` items, counted from zero.
/// The number has to be an integer, else it is no index at all; an integer
/// below zero, or one that is not below `length`, is out of range.
pub open spec fn place(bits: u64, length: nat) -> Result<int, TypeErrorView> {
    if !is_integral(bits) {
        Err(TypeErrorView::IncompatibleType { expected: "entero"@, found: "numero"@ })
    } else if is_negative(bits) && !is_zero(bits) {
        Err(TypeErrorView::IndexOutOfRange { index: signed_numeral(as_i64(bits) as int) })
    } else if as_index(bits) < length {
        Ok(as_index(bits) as int)
    } else {
        Err(TypeErrorView::IndexOutOfRange { index: numeral(as_index(bits) as nat) })
    }
}

/// `object[index]`: the item of a list or the character of a string at the
/// place that an integer names, or the value of a key of a dictionary.
pub open spec fn indexed(object: ValueView, index: ValueView) -> Result<ValueView, TypeErrorView> {
    match (object, index) {
        (ValueView::List(items), ValueView::Number(n)) => match place(n, items.len()) {
            Ok(at) => Ok(items[at]),
            Err(error) => Err(error),
        },
        (ValueView::Dict(entries), ValueView::String(key)) => match lookup(entries, key) {
            Some(value) => Ok(value),
            None => Err(TypeErrorView::KeyError { key }),
        },
        (ValueView::String(text), ValueView::Number(n)) => match place(n, text.len()) {
            Ok(at) => Ok(ValueView::String(seq![text[at]])),
            Err(error) => Err(error),
        },
        _ => Err(unsupported("indexar"@, object, index)),
    }
}

/// The object after `object[index] = value`.
pub open spec fn with_index(object: ValueView, index: ValueView, value: ValueView) -> Result<
    ValueView,
    TypeErrorView,
> {
    match (object, index) {
        (ValueView::List(items), ValueView::Number(n)) => match place(n, items.len()) {
            Ok(at) => Ok(ValueView::List(items.update(at, value))),
            Err(error) => Err(error),
        },
        (ValueView::Dict(entries), ValueView::String(key)) => Ok(
            ValueView::Dict(with_entry(entries, key, value)),
        ),
        _ => Err(unsupported("asignar indice"@, object, index)),
    }
}

/// An index is given exactly for an integer from zero up to the length,
/// the length left out.
pub proof fn lemma_place(bits: u64, length: nat)
    ensures
        place(bits, length) matches Ok(at) ==> 0 <= at < length && is_integral(bits) && at
            == as_index(bits),
        is_negative(bits) && !is_zero(bits) ==> place(bits, length) is Err,
        !is_integral(bits) ==> place(bits, length) is Err,
{
}

/// The place that a number names among `length` items.
pub fn place_of(bits: u64, length: usize) -> (result: Result<usize, TypeError>)
    ensures
        match result {
            Ok(at) => place(bits, length as nat) == Ok::<int, TypeErrorView>(at as int) && at
                < length,
            Err(error) => place(bits, length as nat) == Err::<int, TypeErrorView>(error@),
        },
{
    if !crate::number::integral(bits) {
        Err(
            TypeError::IncompatibleType {
                expected: String::from_str("entero"),
                found: String::from_str("numero"),
            },
        )
    } else if crate::number::negative(bits) && !crate::number::zero(bits) {
        Err(TypeError::IndexOutOfRange { index: signed_numeral_of(crate::number::to_i64(bits)) })
    } else {
        let at: usize = crate::number::to_index(bits);
        if at < length {
            Ok(at)
        } else {
            Err(TypeError::IndexOutOfRange { index: numeral_of(at as u64) })
        }
    }
}

/// Whether a member name asks for the length.
pub open spec fn is_length_name(name: Seq<char>) -> bool {
    name == "longitud"@ || name == "length"@
}

/// `object.name`: a field of an object, or the length of a list or string.
pub open spec fn member_of(object: ValueView, name: Seq<char>) -> Result<ValueView, TypeErrorView> {
    match object {
        ValueView::Object { class_name, fields } => match lookup(fields, name) {
            Some(value) => Ok(value),
            None => Err(
                TypeErrorView::MemberNotFound { member: name, type_label: type_label_of(object) },
            ),
        },
        ValueView::List(_) | ValueView::String(_) => if is_length_name(name) {
            Ok(ValueView::Number(from_int(length_of(object) as int) as u64))
        } else {
            Err(TypeErrorView::MemberNotFound { member: name, type_label: type_label_of(object) })
        },
        _ => Err(TypeErrorView::MemberNotFound { member: name, type_label: type_label_of(object) }),
    }
}

/// The object after `object.name = value`.
pub open spec fn with_member(object: ValueView, name: Seq<char>, value: ValueView) -> Result<
    ValueView,
    TypeErrorView,
> {
    match object {
        ValueView::Object { class_name, fields } => Ok(
            ValueView::Object { class_name, fields: with_entry(fields, name, value) },
        ),
        _ => Err(
            TypeErrorView::UnsupportedOperation {
                operation: "asignar propiedad"@,
                type_label: type_label_of(object),
            },
        ),
    }
}

/// How many values a range visits: the distance from `start` to `end`
/// divided by the step, rounded up, and none where the step leads away
/// from `end`.
pub open spec fn range_count(start: int, end: int, step: int) -> nat {
    if step > 0 && start < end {
        ((end - start + step - 1) / step) as nat
    } else if step < 0 && start > end {
        ((start - end - step - 1) / (-step)) as nat
    } else {
        0
    }
}

/// The values that a range visits, as numbers.
pub open spec fn range_items(start: int, end: int, step: int) -> Seq<ValueView> {
    Seq::new(
        range_count(start, end, step),
        |i: int| ValueView::Number(from_int(start + i * step) as u64),
    )
}

/// The items that `for` and `iter` visit: the items of a list, the
/// characters of a string, the keys of a dictionary, the values of a range.
pub open spec fn items_of(value: ValueView) -> Result<Seq<ValueView>, TypeErrorView> {
    match value {
        ValueView::List(items) => Ok(items),
        ValueView::String(text) => Ok(Seq::new(text.len(), |i: int| ValueView::String(seq![text[i]]))),
        ValueView::Dict(entries) => Ok(
            Seq::new(entries.len(), |i: int| ValueView::String(entries[i].0)),
        ),
        ValueView::Range { start, end, step } => Ok(range_items(start as int, end as int, step as int)),
        _ => Err(
            TypeErrorView::UnsupportedOperation {
                operation: "iterar"@,
                type_label: type_label_of(value),
            },
        ),
    }
}

/// A range visits the value at `k` steps from its start exactly when `k`
/// is below its count.
pub proof fn lemma_range_count(start: int, end: int, step: int, k: int)
    requires
        step != 0,
        0 <= k,
    ensures
        k < range_count(start, end, step) <==> if step > 0 {
            start + k * step < end
        } else {
            start + k * step > end
        },
{
    let distance = if step > 0 {
        end - start
    } else {
        start - end
    };
    let stride = if step > 0 {
        step
    } else {
        -step
    };
    assert(k * step == if step > 0 {
        k * stride
    } else {
        -(k * stride)
    }) by (nonlinear_arith)
        requires
            stride == if step > 0 {
                step
            } else {
                -step
            },
    ;
    if distance > 0 {
        let count = (distance + stride - 1) / stride;
        lemma_fundamental_div_mod(distance + stride - 1, stride);
        let rest = (distance + stride - 1) % stride;
        assert(0 <= rest < stride);
        assert(stride * count == distance + stride - 1 - rest);
        if k < count {
            assert(k * stride <= (count - 1) * stride) by (nonlinear_arith)
                requires
                    k <= count - 1,
                    stride > 0,
            ;
            assert((count - 1) * stride == stride * count - stride) by (nonlinear_arith);
        } else {
            assert(k * stride >= count * stride) by (nonlinear_arith)
                requires
                    k >= count,
                    stride > 0,
            ;
            assert(count * stride == stride * count) by (nonlinear_arith);
        }
    } else {
        assert(k * stride >= 0) by (nonlinear_arith)
            requires
                k >= 0,
                stride > 0,
        ;
    }
}

/// The failure of an operation that these two values do not support.
fn fail_pair(operation: &str, left: &VaderValue, right: &VaderValue) -> (error: TypeError)
    ensures
        error@ == unsupported(operation@, left@, right@),
{
    let mut label = String::from_str(left.type_label());
    label.append(" y ");
    label.append(right.type_label());
    TypeError::UnsupportedOperation { operation: String::from_str(operation), type_label: label }
}

/// A request for arithmetic.
fn ask(op: NumberOp, left: u64, right: u64) -> (computed: Computed)
    ensures
        computed@ == arithmetic(op, left, right),
{
    Computed::Pending {
        request: Request::Arithmetic { op, left, right },
        completion: Completion::Number,
    }
}

/// The string with the text of the pieces.
pub fn text_of_pieces(pieces: Vec<TextPiece>) -> (computed: Computed)
    ensures
        computed@ == text_value(pieces_view(pieces@)),
{
    match plain(&pieces) {
        Some(text) => Computed::Value(VaderValue::String(text)),
        None => Computed::Pending { request: Request::Render { pieces }, completion: Completion::Text },
    }
}

/// How two texts are ordered.
#[verifier::loop_isolation(false)]
fn order_texts(left: &String, right: &String) -> (order: i8)
    ensures
        order == text_order(left@, right@, 0),
        -1 <= order <= 1,
{
    let a = chars_of(left.as_str());
    let b = chars_of(right.as_str());
    let mut at: usize = 0;
    while at < a.len() && at < b.len()
        invariant
            at <= a.len(),
            at <= b.len(),
            text_order(left@, right@, 0) == text_order(left@, right@, at as int),
        decreases a.len() - at,
    {
        let x: u32 = a[at] as u32;
        let y: u32 = b[at] as u32;
        if x < y {
            return -1;
        }
        if x > y {
            return 1;
        }
        at = at + 1;
    }
    if at < b.len() {
        -1
    } else if at < a.len() {
        1
    } else {
        0
    }
}

impl VaderValue {
    /// `self + other`.
    pub fn add(&self, other: &VaderValue) -> (result: Result<Computed, TypeError>)
        ensures
            models(result, sum_of(self@, other@)),
    {
        proof {
            lemma_value_view(*self);
            lemma_value_view(*other);
        }
        match (self, other) {
            (VaderValue::Number(a), VaderValue::Number(b)) => Ok(ask(NumberOp::Add, *a, *b)),
            (VaderValue::String(a), _) => {
                let mut pieces: Vec<TextPiece> = Vec::new();
                pieces.push(TextPiece::Plain(a.clone()));
                assert(pieces_view(pieces@) =~= seq![PieceView::Plain(a@)]);
                other.render_into(&mut pieces);
                Ok(text_of_pieces(pieces))
            },
            (VaderValue::List(a), VaderValue::List(b)) => {
                let mut items = copy_values(a);
                let mut rest = copy_values(b);
                items.append(&mut rest);
                let value = VaderValue::List(items);
                proof {
                    lemma_value_view(value);
                    assert(values_view(items@) =~= values_view(a@) + values_view(b@));
                }
                Ok(Computed::Value(value))
            },
            _ => Err(fail_pair("sumar", self, other)),
        }
    }

    /// `self - other`.
    pub fn subtract(&self, other: &VaderValue) -> (result: Result<Computed, TypeError>)
        ensures
            models(result, numeric(NumberOp::Subtract, "restar"@, self@, other@)),
    {
        match (self, other) {
            (VaderValue::Number(a), VaderValue::Number(b)) => Ok(ask(NumberOp::Subtract, *a, *b)),
            _ => Err(fail_pair("restar", self, other)),
        }
    }

    /// `self * other`.
    #[verifier::loop_isolation(false)]
    pub fn multiply(&self, other: &VaderValue) -> (result: Result<Computed, TypeError>)
        ensures
            models(result, product_of(self@, other@)),
    {
        match (self, other) {
            (VaderValue::Number(a), VaderValue::Number(b)) => Ok(ask(NumberOp::Multiply, *a, *b)),
            (VaderValue::String(text), VaderValue::Number(n)) => {
                if crate::number::integral(*n) && (!crate::number::negative(*n)
                    || crate::number::zero(*n)) {
                    let count: usize = crate::number::to_index(*n);
                    let mut all = String::new();
                    let mut done: usize = 0;
                    assert(all@ =~= repeated(text@, 0));
                    while done < count
                        invariant
                            done <= count,
                            all@ == repeated(text@, done as nat),
                        decreases count - done,
                    {
                        all.append(text.as_str());
                        done = done + 1;
                    }
                    Ok(Computed::Value(VaderValue::String(all)))
                } else {
                    Err(
                        TypeError::IncompatibleType {
                            expected: String::from_str("entero positivo"),
                            found: String::from_str("numero"),
                        },
                    )
                }
            },
            _ => Err(fail_pair("multiplicar", self, other)),
        }
    }

    /// `self / other`.
    pub fn divide(&self, other: &VaderValue) -> (result: Result<Computed, TypeError>)
        ensures
            models(result, divided(NumberOp::Divide, "dividir"@, self@, other@)),
    {
        match (self, other) {
            (VaderValue::Number(a), VaderValue::Number(b)) => {
                if crate::number::zero(*b) {
                    Err(TypeError::DivisionByZero)
                } else {
                    Ok(ask(NumberOp::Divide, *a, *b))
                }
            },
            _ => Err(fail_pair("dividir", self, other)),
        }
    }

    /// `self % other`.
    pub fn modulo(&self, other: &VaderValue) -> (result: Result<Computed, TypeError>)
        ensures
            models(result, divided(NumberOp::Modulo, "calcular modulo de"@, self@, other@)),
    {
        match (self, other) {
            (VaderValue::Number(a), VaderValue::Number(b)) => {
                if crate::number::zero(*b) {
                    Err(TypeError::DivisionByZero)
                } else {
                    Ok(ask(NumberOp::Modulo, *a, *b))
                }
            },
            _ => Err(fail_pair("calcular modulo de", self, other)),
        }
    }

    /// `self` raised to `other`.
    pub fn power(&self, other: &VaderValue) -> (result: Result<Computed, TypeError>)
        ensures
            models(result, numeric(NumberOp::Power, "elevar"@, self@, other@)),
    {
        match (self, other) {
            (VaderValue::Number(a), VaderValue::Number(b)) => Ok(ask(NumberOp::Power, *a, *b)),
            _ => Err(fail_pair("elevar", self, other)),
        }
    }

    /// Whether the two values are equal.
    pub fn equals(&self, other: &VaderValue) -> (computed: Computed)
        ensures
            computed@ == equality_of(self@, other@),
    {
        match (self, other) {
            (VaderValue::Number(a), VaderValue::Number(b)) => Computed::Pending {
                request: Request::Arithmetic { op: NumberOp::Subtract, left: *a, right: *b },
                completion: Completion::Equality { negated: false },
            },
            (VaderValue::String(a), VaderValue::String(b)) => Computed::Value(
                VaderValue::Boolean(*a == *b),
            ),
            (VaderValue::Boolean(a), VaderValue::Boolean(b)) => Computed::Value(
                VaderValue::Boolean(*a == *b),
            ),
            (VaderValue::Null, VaderValue::Null) => Computed::Value(VaderValue::Boolean(true)),
            _ => Computed::Value(VaderValue::Boolean(false)),
        }
    }

    /// How the two values are ordered: -1, 0 or 1.
    pub fn order(&self, other: &VaderValue) -> (result: Result<i8, TypeError>)
        ensures
            match result {
                Ok(order) => order_of(self@, other@) == Ok::<int, TypeErrorView>(order as int) && -1
                    <= order <= 1,
                Err(error) => order_of(self@, other@) == Err::<int, TypeErrorView>(error@),
            },
    {
        match (self, other) {
            (VaderValue::Number(a), VaderValue::Number(b)) => {
                if crate::number::is_less(*a, *b) {
                    Ok(-1)
                } else if crate::number::is_less(*b, *a) {
                    Ok(1)
                } else {
                    Ok(0)
                }
            },
            (VaderValue::String(a), VaderValue::String(b)) => Ok(order_texts(a, b)),
            _ => Err(fail_pair("comparar", self, other)),
        }
    }

    /// `self < other`.
    pub fn less_than(&self, other: &VaderValue) -> (result: Result<VaderValue, TypeError>)
        ensures
            models(result, compared(self@, other@, |order: int| order < 0)),
    {
        match self.order(other) {
            Ok(order) => Ok(VaderValue::Boolean(order < 0)),
            Err(error) => Err(error),
        }
    }

    /// `self <= other`.
    pub fn less_equal(&self, other: &VaderValue) -> (result: Result<VaderValue, TypeError>)
        ensures
            models(result, compared(self@, other@, |order: int| order <= 0)),
    {
        match self.order(other) {
            Ok(order) => Ok(VaderValue::Boolean(order <= 0)),
            Err(error) => Err(error),
        }
    }

    /// `self > other`.
    pub fn greater_than(&self, other: &VaderValue) -> (result: Result<VaderValue, TypeError>)
        ensures
            models(result, compared(self@, other@, |order: int| order > 0)),
    {
        match self.order(other) {
            Ok(order) => Ok(VaderValue::Boolean(order > 0)),
            Err(error) => Err(error),
        }
    }

    /// `self >= other`.
    pub fn greater_equal(&self, other: &VaderValue) -> (result: Result<VaderValue, TypeError>)
        ensures
            models(result, compared(self@, other@, |order: int| order >= 0)),
    {
        match self.order(other) {
            Ok(order) => Ok(VaderValue::Boolean(order >= 0)),
            Err(error) => Err(error),
        }
    }

    /// `-self`.
    pub fn negate(&self) -> (result: Result<VaderValue, TypeError>)
        ensures
            models(result, negation_of(self@)),
    {
        match self {
            VaderValue::Number(bits) => Ok(VaderValue::Number(crate::number::negate(*bits))),
            VaderValue::Boolean(truth) => Ok(VaderValue::Boolean(!*truth)),
            _ => Err(
                TypeError::UnsupportedOperation {
                    operation: String::from_str("negar"),
                    type_label: String::from_str(self.type_label()),
                },
            ),
        }
    }

    /// `self[index]`.
    pub fn get_index(&self, index: &VaderValue) -> (result: Result<VaderValue, TypeError>)
        ensures
            models(result, indexed(self@, index@)),
    {
        self.index(index)
    }

    /// `self[index]`.
    pub fn index(&self, index: &VaderValue) -> (result: Result<VaderValue, TypeError>)
        ensures
            models(result, indexed(self@, index@)),
    {
        proof {
            lemma_value_view(*self);
        }
        match (self, index) {
            (VaderValue::List(items), VaderValue::Number(n)) => {
                match place_of(*n, items.len()) {
                    Ok(at) => Ok(items[at].copy()),
                    Err(error) => Err(error),
                }
            },
            (VaderValue::Dict(entries), VaderValue::String(key)) => {
                match find_entry(entries, key) {
                    Some(at) => Ok(entries[at].1.copy()),
                    None => Err(TypeError::KeyError { key: key.clone() }),
                }
            },
            (VaderValue::String(text), VaderValue::Number(n)) => {
                let chars = chars_of(text.as_str());
                match place_of(*n, chars.len()) {
                    Ok(at) => {
                        let one = text_of(&chars, at, at + 1);
                        assert(one@ =~= seq![text@[at as int]]);
                        Ok(VaderValue::String(one))
                    },
                    Err(error) => Err(error),
                }
            },
            _ => Err(fail_pair("indexar", self, index)),
        }
    }

    /// `self[index] = value`.
    pub fn set_index(
        &mut self,
        index: &VaderValue,
        value: VaderValue,
    ) -> (result: Result<(), TypeError>)
        ensures
            match result {
                Ok(_) => with_index(old(self)@, index@, value@) == Ok::<ValueView, TypeErrorView>(
                    final(self)@,
                ),
                Err(error) => with_index(old(self)@, index@, value@) == Err::<
                    ValueView,
                    TypeErrorView,
                >(error@) && final(self)@ == old(self)@,
            },
    {
        proof {
            lemma_value_view(*self);
        }
        let failure = fail_pair("asignar indice", self, index);
        match (self, index) {
            (VaderValue::List(items), VaderValue::Number(n)) => {
                match place_of(*n, items.len()) {
                    Ok(at) => {
                        let ghost before = values_view(items@);
                        items.set(at, value);
                        proof {
                            assert(values_view(items@) =~= before.update(at as int, value@));
                            lemma_value_view(VaderValue::List(*items));
                        }
                        Ok(())
                    },
                    Err(error) => Err(error),
                }
            },
            (VaderValue::Dict(entries), VaderValue::String(key)) => {
                put_entry(entries, key.clone(), value);
                proof {
                    lemma_value_view(VaderValue::Dict(*entries));
                }
                Ok(())
            },
            _ => Err(failure),
        }
    }

    /// `self.name`.
    pub fn get_member(&self, name: &str) -> (result: Result<VaderValue, TypeError>)
        ensures
            models(result, member_of(self@, name@)),
    {
        proof {
            lemma_value_view(*self);
        }
        let member = String::from_str(name);
        let missing = TypeError::MemberNotFound {
            member: member.clone(),
            type_label: String::from_str(self.type_label()),
        };
        match self {
            VaderValue::Object { class_name, fields } => {
                match find_entry(fields, &member) {
                    Some(at) => Ok(fields[at].1.copy()),
                    None => Err(missing),
                }
            },
            VaderValue::List(_) | VaderValue::String(_) => {
                if crate::text::is_word(&member, "longitud") || crate::text::is_word(
                    &member,
                    "length",
                ) {
                    Ok(VaderValue::Number(crate::number::from_index(self.len())))
                } else {
                    Err(missing)
                }
            },
            _ => Err(missing),
        }
    }

    /// `self.name = value`.
    pub fn set_member(&mut self, name: &str, value: VaderValue) -> (result: Result<(), TypeError>)
        ensures
            match result {
                Ok(_) => with_member(old(self)@, name@, value@) == Ok::<ValueView, TypeErrorView>(
                    final(self)@,
                ),
                Err(error) => with_member(old(self)@, name@, value@) == Err::<
                    ValueView,
                    TypeErrorView,
                >(error@) && final(self)@ == old(self)@,
            },
    {
        proof {
            lemma_value_view(*self);
        }
        let label = String::from_str(self.type_label());
        match self {
            VaderValue::Object { class_name, fields } => {
                put_entry(fields, String::from_str(name), value);
                proof {
                    lemma_value_view(
                        VaderValue::Object { class_name: *class_name, fields: *fields },
                    );
                }
                Ok(())
            },
            _ => Err(
                TypeError::UnsupportedOperation {
                    operation: String::from_str("asignar propiedad"),
                    type_label: label,
                },
            ),
        }
    }

    /// The items that a loop over the value visits.
    #[verifier::loop_isolation(false)]
    pub fn iter(&self) -> (result: Result<Vec<VaderValue>, TypeError>)
        ensures
            match result {
                Ok(items) => items_of(self@) == Ok::<Seq<ValueView>, TypeErrorView>(
                    values_view(items@),
                ),
                Err(error) => items_of(self@) == Err::<Seq<ValueView>, TypeErrorView>(error@),
            },
    {
        proof {
            lemma_value_view(*self);
        }
        match self {
            VaderValue::List(items) => Ok(copy_values(items)),
            VaderValue::String(text) => {
                let chars = chars_of(text.as_str());
                let mut items: Vec<VaderValue> = Vec::new();
                let mut at: usize = 0;
                while at < chars.len()
                    invariant
                        at <= chars.len(),
                        values_view(items@) =~= Seq::new(
                            at as nat,
                            |i: int| ValueView::String(seq![text@[i]]),
                        ),
                    decreases chars.len() - at,
                {
                    let one = text_of(&chars, at, at + 1);
                    assert(one@ =~= seq![text@[at as int]]);
                    let ghost before = items@;
                    items.push(VaderValue::String(one));
                    at = at + 1;
                    assert forall|i: int| 0 <= i < at implies values_view(items@)[i]
                        == ValueView::String(seq![text@[i]]) by {
                        if i < at - 1 {
                            assert(values_view(before)[i] == ValueView::String(seq![text@[i]]));
                        }
                    }
                }
                Ok(items)
            },
            VaderValue::Dict(entries) => {
                let mut items: Vec<VaderValue> = Vec::new();
                let mut at: usize = 0;
                while at < entries.len()
                    invariant
                        at <= entries.len(),
                        values_view(items@) =~= Seq::new(
                            at as nat,
                            |i: int| ValueView::String(entries_view(entries@)[i].0),
                        ),
                    decreases entries.len() - at,
                {
                    let ghost before = items@;
                    items.push(VaderValue::String(entries[at].0.clone()));
                    at = at + 1;
                    assert forall|i: int| 0 <= i < at implies values_view(items@)[i]
                        == ValueView::String(entries_view(entries@)[i].0) by {
                        if i < at - 1 {
                            assert(values_view(before)[i] == ValueView::String(
                                entries_view(entries@)[i].0,
                            ));
                        }
                    }
                }
                Ok(items)
            },
            VaderValue::Range { start, end, step } => {
                let mut items: Vec<VaderValue> = Vec::new();
                if *step == 0 {
                    assert(values_view(items@) =~= range_items(*start as int, *end as int, 0));
                    return Ok(items);
                }
                let mut current: i128 = *start as i128;
                let ghost mut visited: int = 0;
                while (*step > 0 && current < *end as i128) || (*step < 0 && current > *end as i128)
                    invariant
                        *step != 0,
                        0 <= visited,
                        current == *start + visited * *step,
                        visited <= range_count(*start as int, *end as int, *step as int),
                        i64::MIN + i64::MIN <= current <= i64::MAX + i64::MAX,
                        values_view(items@) =~= Seq::new(
                            visited as nat,
                            |i: int| ValueView::Number(from_int(*start + i * *step) as u64),
                        ),
                    decreases range_count(*start as int, *end as int, *step as int) - visited,
                {
                    proof {
                        lemma_range_count(*start as int, *end as int, *step as int, visited);
                        assert(*step > 0 ==> visited * *step >= 0) by (nonlinear_arith)
                            requires
                                visited >= 0,
                        ;
                        assert(*step < 0 ==> visited * *step <= 0) by (nonlinear_arith)
                            requires
                                visited >= 0,
                        ;
                    }
                    let ghost before = items@;
                    items.push(VaderValue::Number(crate::number::from_i64(current as i64)));
                    current = current + *step as i128;
                    proof {
                        assert((visited + 1) * *step == visited * *step + *step)
                            by (nonlinear_arith);
                        assert forall|i: int| 0 <= i < visited + 1 implies values_view(items@)[i]
                            == ValueView::Number(from_int(*start + i * *step) as u64) by {
                            if i < visited {
                                assert(values_view(before)[i] == ValueView::Number(
                                    from_int(*start + i * *step) as u64,
                                ));
                            }
                        }
                        visited = visited + 1;
                    }
                }
                proof {
                    lemma_range_count(*start as int, *end as int, *step as int, visited);
                }
                Ok(items)
            },
            _ => Err(
                TypeError::UnsupportedOperation {
                    operation: String::from_str("iterar"),
                    type_label: String::from_str(self.type_label()),
                },
            ),
        }
    }
}

/// How an `Ordering` counts: -1, 0 or 1.
pub open spec fn sign_of(order: Ordering) -> int {
    match order {
        Ordering::Less => -1,
        Ordering::Equal => 0,
        Ordering::Greater => 1,
    }
}

impl VaderValue {
    /// How the two values are ordered. Two numbers of which one is a NaN
    /// count as equal.
    pub fn compare(&self, other: &VaderValue) -> (result: Result<Ordering, TypeError>)
        ensures
            match result {
                Ok(order) => order_of(self@, other@) == Ok::<int, TypeErrorView>(sign_of(order)),
                Err(error) => order_of(self@, other@) == Err::<int, TypeErrorView>(error@),
            },
    {
        match self.order(other) {
            Ok(order) => {
                if order < 0 {
                    Ok(Ordering::Less)
                } else if order > 0 {
                    Ok(Ordering::Greater)
                } else {
                    Ok(Ordering::Equal)
                }
            },
            Err(error) => Err(error),
        }
    }
}

} // verus!

verus! {

/// A range of a step above zero visits the distance from its start to its
/// end divided by the step, rounded up, and nothing if the end is not
/// above the start; a range of a step below zero does the same downward.
/// The value at `k` is the start and `k` steps.
pub proof fn lemma_range_visits(start: i64, end: i64, step: i64)
    requires
        step != 0,
    ensures
        items_of(ValueView::Range { start, end, step }) matches Ok(items) && ({
            let count = items.len() as int;
            &&& count == range_count(start as int, end as int, step as int)
            &&& (step > 0 && end > start ==> (count - 1) * step < end - start <= count * step)
            &&& (step < 0 && end < start ==> (count - 1) * (-step) < start - end <= count * (-step))
            &&& (step > 0 && end <= start ==> count == 0)
            &&& (step < 0 && end >= start ==> count == 0)
            &&& forall|k: int|
                0 <= k < count ==> #[trigger] items[k] == ValueView::Number(
                    from_int(start + k * step) as u64,
                )
        }),
{
    let count = range_count(start as int, end as int, step as int) as int;
    let items = range_items(start as int, end as int, step as int);
    assert(items.len() == count);
    lemma_range_count(start as int, end as int, step as int, 0);
    assert(0 * step == 0) by (nonlinear_arith);
    if count > 0 {
        lemma_range_count(start as int, end as int, step as int, count - 1);
    }
    lemma_range_count(start as int, end as int, step as int, count);
    assert((count - 1) * (-step) == -((count - 1) * step)) by (nonlinear_arith);
    assert(count * (-step) == -(count * step)) by (nonlinear_arith);
    assert forall|k: int| 0 <= k < count implies #[trigger] items[k] == ValueView::Number(
        from_int(start + k * step) as u64,
    ) by {}
}

} // verus!
