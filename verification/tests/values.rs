use std::cmp::Ordering;
use vader::interpreter::{apply_binary, apply_unary, complete, count_range};
use vader::number;
use vader::stdlib::text_list;
use vader::{
    Action, Answer, AstNode, Builtin, CompileError, Completion, Computed, Environment, LexError,
    NumberOp, Request, RuntimeError, TextPiece, Token, TokenType, TypeError, VaderCompiler,
    VaderInterpreter, VaderLexer, VaderParser, VaderStdlib, VaderValue,
};

fn number(value: f64) -> VaderValue {
    VaderValue::Number(value.to_bits())
}

fn text(value: &str) -> VaderValue {
    VaderValue::String(value.to_string())
}

fn lex(code: &str) -> Result<Vec<Token>, LexError> {
    let mut lexer = VaderLexer::new(code);
    let values: Vec<u64> = lexer
        .numerals()
        .iter()
        .map(|numeral| numeral.parse::<f64>().map(f64::to_bits).unwrap_or(0))
        .collect();
    lexer.tokenize(&values)
}

fn arithmetic(op: NumberOp, left: u64, right: u64) -> u64 {
    let a = f64::from_bits(left);
    let b = f64::from_bits(right);
    let result = match op {
        NumberOp::Add => a + b,
        NumberOp::Subtract => a - b,
        NumberOp::Multiply => a * b,
        NumberOp::Divide => a / b,
        NumberOp::Modulo => a % b,
        NumberOp::Power => a.powf(b),
        NumberOp::SquareRoot => a.sqrt(),
    };
    result.to_bits()
}

fn render(pieces: &[TextPiece]) -> String {
    let mut out = String::new();
    for piece in pieces {
        match piece {
            TextPiece::Plain(plain) => out.push_str(plain),
            TextPiece::Fraction(bits) => out.push_str(&format!("{}", f64::from_bits(*bits))),
        }
    }
    out
}

struct Driver {
    printed: Vec<String>,
    lines: Vec<String>,
    requests: usize,
}

impl Driver {
    fn new() -> Self {
        Driver { printed: Vec::new(), lines: Vec::new(), requests: 0 }
    }

    fn answer(&mut self, request: Request) -> Answer {
        self.requests += 1;
        match request {
            Request::Arithmetic { op, left, right } => Answer::Number(arithmetic(op, left, right)),
            Request::Render { pieces } => Answer::Text(render(&pieces)),
            Request::Print { text } => {
                println!("{}", text);
                self.printed.push(text);
                Answer::Done
            }
            Request::Input { prompt } => {
                if let Some(prompt) = prompt {
                    self.printed.push(prompt);
                }
                if self.lines.is_empty() {
                    Answer::Failure("fin de la entrada".to_string())
                } else {
                    Answer::Text(self.lines.remove(0))
                }
            }
            Request::ReadFile { path } => Answer::Failure(format!("no existe {}", path)),
            Request::WriteFile { path, contents } => {
                self.printed.push(format!("{} <- {}", path, contents));
                Answer::Done
            }
            Request::Random => Answer::Number(0.25f64.to_bits()),
            Request::Time => Answer::Number(1700000000.0f64.to_bits()),
            Request::Exit { code } => panic!("exit {}", code),
        }
    }

    fn run(
        &mut self,
        interpreter: &mut VaderInterpreter,
        program: Vec<AstNode>,
    ) -> Result<VaderValue, RuntimeError> {
        let mut action = interpreter.interpret(program);
        loop {
            action = match action {
                Action::Continue => interpreter.resume(None),
                Action::Request(request) => {
                    let answer = self.answer(request);
                    interpreter.resume(Some(answer))
                }
                Action::Finished(result) => return result,
            };
        }
    }

    fn settle(&mut self, computed: Computed) -> VaderValue {
        match computed {
            Computed::Value(value) => value,
            Computed::Pending { request, completion } => {
                let answer = self.answer(request);
                let next = complete(completion, answer).unwrap();
                self.settle(next)
            }
        }
    }
}

fn settle(computed: Computed) -> VaderValue {
    Driver::new().settle(computed)
}

fn parse_code(code: &str) -> Result<Vec<AstNode>, String> {
    let tokens = lex(code).map_err(|error| error.message())?;
    let mut parser = VaderParser::new(tokens);
    parser.parse().map_err(|error| error.message())
}

fn execute_vader_code(code: &str) -> Result<VaderValue, String> {
    let program = parse_code(code)?;
    let mut interpreter = VaderInterpreter::new();
    Driver::new().run(&mut interpreter, program).map_err(|error| error.message())
}

fn run_error(code: &str) -> RuntimeError {
    let program = parse_code(code).unwrap();
    let mut interpreter = VaderInterpreter::new();
    Driver::new().run(&mut interpreter, program).unwrap_err()
}

fn shown(value: &VaderValue) -> String {
    render(&value.to_string())
}

fn call(name: &str, arguments: Vec<VaderValue>) -> Result<VaderValue, String> {
    let builtin = VaderStdlib::new().get_function(name).unwrap();
    builtin.call(&arguments).map(settle)
}

#[test]
fn test_stdlib_functions() {
    let stdlib = VaderStdlib::new();

    assert!(stdlib.get_function("print").is_some());
    assert!(stdlib.get_function("decir").is_some());
    assert!(stdlib.get_function("type").is_some());
    assert!(stdlib.get_function("len").is_some());

    let type_fn = stdlib.get_function("type").unwrap();
    let result = settle(type_fn.call(&vec![number(42.0)]).unwrap());
    assert_eq!(result, VaderValue::String("numero".to_string()));

    let len_fn = stdlib.get_function("len").unwrap();
    let result = settle(len_fn.call(&vec![VaderValue::String("hola".to_string())]).unwrap());
    assert_eq!(result, number(4.0));
}

#[test]
fn test_math_functions() {
    let stdlib = VaderStdlib::new();

    let abs_fn = stdlib.get_function("abs").unwrap();
    let result = settle(abs_fn.call(&vec![number(-5.0)]).unwrap());
    assert_eq!(result, number(5.0));

    let sqrt_fn = stdlib.get_function("sqrt").unwrap();
    let result = settle(sqrt_fn.call(&vec![number(16.0)]).unwrap());
    assert_eq!(result, number(4.0));
}

#[test]
fn types_test_arithmetic() {
    let a = number(10.0);
    let b = number(5.0);

    assert_eq!(settle(a.add(&b).unwrap()), number(15.0));
    assert_eq!(settle(a.subtract(&b).unwrap()), number(5.0));
    assert_eq!(settle(a.multiply(&b).unwrap()), number(50.0));
    assert_eq!(settle(a.divide(&b).unwrap()), number(2.0));
}

#[test]
fn types_test_string_operations() {
    let hello = VaderValue::String("Hola".to_string());
    let world = VaderValue::String(" mundo".to_string());

    let result = settle(hello.add(&world).unwrap());
    assert_eq!(result, VaderValue::String("Hola mundo".to_string()));
}

#[test]
fn test_truthiness() {
    assert!(VaderValue::Boolean(true).is_truthy());
    assert!(!VaderValue::Boolean(false).is_truthy());
    assert!(!VaderValue::Null.is_truthy());
    assert!(number(1.0).is_truthy());
    assert!(!number(0.0).is_truthy());
}

#[test]
fn test_list_indexing() {
    let list = VaderValue::List(vec![number(1.0), number(2.0), number(3.0)]);

    let index = number(1.0);
    let result = list.index(&index).unwrap();
    assert_eq!(result, number(2.0));
}

const SAMPLES: [f64; 40] = [
    0.0,
    -0.0,
    1.0,
    -1.0,
    0.5,
    -0.5,
    1.5,
    -1.5,
    2.0,
    3.0,
    0.1,
    0.9999999999999999,
    1.0000000000000002,
    255.0,
    4294967295.0,
    4294967296.0,
    4294967296.5,
    -4294967297.25,
    9007199254740991.0,
    9007199254740992.0,
    9007199254740994.0,
    4503599627370495.5,
    4503599627370496.0,
    2147483647.0,
    2147483648.0,
    -2147483648.0,
    -2147483649.0,
    9223372036854775807.0,
    -9223372036854775808.0,
    9223372036854777856.0,
    18446744073709551615.0,
    1e19,
    1e20,
    -1e20,
    1e300,
    5e-324,
    2.2250738585072014e-308,
    f64::INFINITY,
    f64::NEG_INFINITY,
    f64::NAN,
];

#[test]
fn numbers_are_classified_as_the_machine_does() {
    for x in SAMPLES {
        let bits = x.to_bits();
        assert_eq!(number::zero(bits), x == 0.0, "zero {}", x);
        assert_eq!(number::nan(bits), x.is_nan(), "nan {}", x);
        assert_eq!(number::negative(bits), x.is_sign_negative(), "negative {}", x);
        assert_eq!(number::integral(bits), x.fract() == 0.0, "integral {}", x);
        assert_eq!(number::to_i64(bits), x as i64, "to_i64 {}", x);
        assert_eq!(number::to_index(bits), x as usize, "to_index {}", x);
        assert_eq!(number::to_i32(bits), x as i32, "to_i32 {}", x);
        assert_eq!(number::negate(bits), (-x).to_bits(), "negate {}", x);
        assert_eq!(number::magnitude_of(bits), x.abs().to_bits(), "abs {}", x);
        assert_eq!(number::is_negligible(bits), x.abs() < f64::EPSILON, "negligible {}", x);
        for y in SAMPLES {
            assert_eq!(number::is_less(bits, y.to_bits()), x < y, "{} < {}", x, y);
        }
    }
    assert!(number::is_negligible(1e-17f64.to_bits()));
    assert!(!number::is_negligible(f64::EPSILON.to_bits()));
}

#[test]
fn integers_become_the_nearest_number() {
    let samples: [i64; 30] = [
        0,
        1,
        -1,
        2,
        3,
        7,
        1000,
        -1000,
        4294967296,
        9007199254740991,
        9007199254740992,
        9007199254740993,
        9007199254740994,
        9007199254740995,
        -9007199254740993,
        18014398509481985,
        18014398509481986,
        18014398509481987,
        36028797018963967,
        36028797018963966,
        1152921504606846975,
        1152921504606846977,
        4611686018427387903,
        9223372036854775295,
        9223372036854775296,
        9223372036854775806,
        i64::MAX,
        i64::MIN,
        i64::MIN + 1,
        -4611686018427387905,
    ];
    for n in samples {
        assert_eq!(number::from_i64(n), (n as f64).to_bits(), "from_i64 {}", n);
        if n >= 0 {
            assert_eq!(number::from_u64(n as u64), (n as u64 as f64).to_bits(), "from_u64 {}", n);
            assert_eq!(number::from_index(n as usize), (n as usize as f64).to_bits());
        }
    }
    for m in [u64::MAX, u64::MAX - 1, u64::MAX - 1024, 1u64 << 63, (1u64 << 63) + 1025, 18446744073709549568] {
        assert_eq!(number::from_u64(m), (m as f64).to_bits(), "from_u64 {}", m);
    }
    let mut seed: u64 = 0x9e3779b97f4a7c15;
    for _ in 0..2000 {
        seed ^= seed << 13;
        seed ^= seed >> 7;
        seed ^= seed << 17;
        let shifted = seed >> (seed % 64);
        assert_eq!(number::from_u64(shifted), (shifted as f64).to_bits(), "from_u64 {}", shifted);
        assert_eq!(number::from_i64(shifted as i64), (shifted as i64 as f64).to_bits());
        let x = f64::from_bits(seed);
        assert_eq!(number::to_i64(seed), x as i64, "to_i64 {}", x);
        assert_eq!(number::integral(seed), x.fract() == 0.0, "integral {}", x);
    }
}

#[test]
fn values_have_their_type_names() {
    assert_eq!(number(1.0).type_label(), "numero");
    assert_eq!(text("a").type_label(), "texto");
    assert_eq!(VaderValue::Boolean(true).type_label(), "booleano");
    assert_eq!(VaderValue::Null.type_label(), "nulo");
    assert_eq!(VaderValue::empty_list().type_label(), "lista");
    assert_eq!(VaderValue::empty_dict().type_label(), "diccionario");
    assert_eq!(
        VaderValue::Function { name: "f".to_string(), params: vec![], body: vec![] }.type_label(),
        "funcion"
    );
    assert_eq!(
        VaderValue::Object { class_name: "C".to_string(), fields: vec![] }.type_label(),
        "objeto"
    );
    assert_eq!(VaderValue::range(0, 1).type_label(), "rango");
    assert_eq!(call("tipo", vec![VaderValue::range(0, 1)]).unwrap(), text("rango"));
    assert_eq!(call("type", vec![VaderValue::Null, number(1.0)]).unwrap(), text("nulo"));
    assert_eq!(call("type", vec![]), Err("type() requiere al menos un argumento".to_string()));
}

#[test]
fn truthiness_follows_the_kind_of_value() {
    assert!(!number(-0.0).is_truthy());
    assert!(number(f64::NAN).is_truthy());
    assert!(!text("").is_truthy());
    assert!(text(" ").is_truthy());
    assert!(!VaderValue::empty_list().is_truthy());
    assert!(VaderValue::List(vec![VaderValue::Null]).is_truthy());
    assert!(!VaderValue::empty_dict().is_truthy());
    assert!(VaderValue::Dict(vec![("a".to_string(), VaderValue::Null)]).is_truthy());
    assert!(VaderValue::range(0, 0).is_truthy());
    assert!(VaderValue::Object { class_name: "C".to_string(), fields: vec![] }.is_truthy());
    assert!(VaderValue::Function { name: "f".to_string(), params: vec![], body: vec![] }
        .is_truthy());
    assert!(VaderValue::from_bool(true).is_truthy());
}

#[test]
fn values_are_shown_in_their_display_form() {
    assert_eq!(shown(&number(3.0)), "3");
    assert_eq!(shown(&number(-0.0)), "0");
    assert_eq!(shown(&number(-12.0)), "-12");
    assert_eq!(shown(&number(2.5)), "2.5");
    assert_eq!(shown(&number(1e20)), "9223372036854775807");
    assert_eq!(shown(&number(-1e20)), "-9223372036854775808");
    assert_eq!(shown(&number(f64::NAN)), "NaN");
    assert_eq!(shown(&number(f64::INFINITY)), "inf");
    assert_eq!(shown(&number(f64::NEG_INFINITY)), "-inf");
    assert_eq!(shown(&text("hola")), "hola");
    assert_eq!(shown(&VaderValue::Boolean(true)), "verdadero");
    assert_eq!(shown(&VaderValue::Boolean(false)), "falso");
    assert_eq!(shown(&VaderValue::Null), "nulo");
    assert_eq!(shown(&VaderValue::empty_list()), "[]");
    assert_eq!(
        shown(&VaderValue::List(vec![
            number(1.0),
            text("b"),
            VaderValue::List(vec![number(0.5)])
        ])),
        "[1, b, [0.5]]"
    );
    assert_eq!(shown(&VaderValue::empty_dict()), "{}");
    assert_eq!(
        shown(&VaderValue::Dict(vec![
            ("k".to_string(), number(1.0)),
            ("v".to_string(), VaderValue::Null)
        ])),
        "{k: 1, v: nulo}"
    );
    assert_eq!(
        shown(&VaderValue::Function {
            name: "suma".to_string(),
            params: vec!["a".to_string(), "b".to_string()],
            body: vec![]
        }),
        "funcion suma(a, b)"
    );
    assert_eq!(
        shown(&VaderValue::Function { name: "f".to_string(), params: vec![], body: vec![] }),
        "funcion f()"
    );
    assert_eq!(
        shown(&VaderValue::Object { class_name: "Punto".to_string(), fields: vec![] }),
        "objeto de Punto"
    );
    assert_eq!(shown(&VaderValue::range_with_step(1, -5, -2)), "rango(1, -5, -2)");
    assert_eq!(shown(&VaderValue::range(i64::MIN, i64::MAX)),
        "rango(-9223372036854775808, 9223372036854775807, 1)");
    assert_eq!(number(2.5).to_string(), vec![TextPiece::Fraction(2.5f64.to_bits())]);
    assert_eq!(number(2.0).to_string(), vec![TextPiece::Plain("2".to_string())]);
    assert_eq!(vader::host::plain(&number(2.0).to_string()), Some("2".to_string()));
    assert_eq!(vader::host::plain(&number(2.5).to_string()), None);
    assert_eq!(vader::host::plain(&VaderValue::List(vec![text("a"), number(1.0)]).to_string()),
        Some("[a, 1]".to_string()));
}

#[test]
fn add_joins_numbers_texts_and_lists() {
    assert_eq!(settle(text("n=").add(&number(5.0)).unwrap()), text("n=5"));
    assert_eq!(settle(text("n=").add(&number(0.25)).unwrap()), text("n=0.25"));
    assert_eq!(settle(text("").add(&VaderValue::Null).unwrap()), text("nulo"));
    assert_eq!(
        text("v").add(&VaderValue::List(vec![number(1.0)])).unwrap(),
        Computed::Value(text("v[1]"))
    );
    assert_eq!(
        number(1.0).add(&number(2.0)).unwrap(),
        Computed::Pending {
            request: Request::Arithmetic {
                op: NumberOp::Add,
                left: 1.0f64.to_bits(),
                right: 2.0f64.to_bits()
            },
            completion: Completion::Number
        }
    );
    assert_eq!(
        settle(
            VaderValue::List(vec![number(1.0)])
                .add(&VaderValue::List(vec![text("a"), VaderValue::Null]))
                .unwrap()
        ),
        VaderValue::List(vec![number(1.0), text("a"), VaderValue::Null])
    );
    assert_eq!(
        number(1.0).add(&text("a")).unwrap_err(),
        TypeError::UnsupportedOperation {
            operation: "sumar".to_string(),
            type_label: "numero y texto".to_string()
        }
    );
    assert!(VaderValue::Null.add(&VaderValue::Null).is_err());
    assert!(VaderValue::empty_list().add(&number(1.0)).is_err());
}

#[test]
fn arithmetic_is_for_numbers() {
    assert_eq!(settle(number(7.0).modulo(&number(4.0)).unwrap()), number(3.0));
    assert_eq!(settle(number(-7.5).modulo(&number(2.0)).unwrap()), number(-1.5));
    assert_eq!(settle(number(2.0).power(&number(10.0)).unwrap()), number(1024.0));
    assert_eq!(settle(number(1.0).divide(&number(4.0)).unwrap()), number(0.25));
    assert_eq!(settle(number(0.1).add(&number(0.2)).unwrap()), number(0.1 + 0.2));
    assert_eq!(number(1.0).divide(&number(0.0)).unwrap_err(), TypeError::DivisionByZero);
    assert_eq!(number(1.0).divide(&number(-0.0)).unwrap_err(), TypeError::DivisionByZero);
    assert_eq!(number(1.0).modulo(&number(0.0)).unwrap_err(), TypeError::DivisionByZero);
    assert!(settle(number(1.0).divide(&number(f64::NAN)).unwrap()) != number(0.0));
    for (result, verb) in [
        (text("a").subtract(&number(1.0)), "restar"),
        (number(1.0).multiply(&text("a")), "multiplicar"),
        (text("a").divide(&number(1.0)), "dividir"),
        (text("a").modulo(&number(1.0)), "calcular modulo de"),
        (text("a").power(&number(1.0)), "elevar"),
    ] {
        match result.unwrap_err() {
            TypeError::UnsupportedOperation { operation, .. } => assert_eq!(operation, verb),
            other => panic!("unexpected error {:?}", other),
        }
    }
}

#[test]
fn a_text_is_repeated_by_a_whole_number() {
    assert_eq!(settle(text("ab").multiply(&number(3.0)).unwrap()), text("ababab"));
    assert_eq!(settle(text("ab").multiply(&number(0.0)).unwrap()), text(""));
    assert_eq!(settle(text("ab").multiply(&number(-0.0)).unwrap()), text(""));
    let expected = TypeError::IncompatibleType {
        expected: "entero positivo".to_string(),
        found: "numero".to_string(),
    };
    assert_eq!(text("ab").multiply(&number(1.5)).unwrap_err(), expected);
    assert_eq!(text("ab").multiply(&number(-1.0)).unwrap_err(), expected);
    assert_eq!(text("ab").multiply(&number(f64::NAN)).unwrap_err(), expected);
    assert_eq!(text("ab").multiply(&number(f64::INFINITY)).unwrap_err(), expected);
}

#[test]
fn equality_is_by_kind() {
    assert_eq!(settle(number(1.0).equals(&number(1.0))), VaderValue::Boolean(true));
    assert_eq!(settle(number(1.0).equals(&number(1.0 + 1e-17))), VaderValue::Boolean(true));
    assert_eq!(settle(number(0.3).equals(&number(0.1 + 0.2))), VaderValue::Boolean(true));
    assert_eq!(settle(number(1.0).equals(&number(1.0 + 1e-9))), VaderValue::Boolean(false));
    assert_eq!(
        settle(number(f64::INFINITY).equals(&number(f64::INFINITY))),
        VaderValue::Boolean(false)
    );
    assert_eq!(text("a").equals(&text("a")), Computed::Value(VaderValue::Boolean(true)));
    assert_eq!(text("a").equals(&text("b")), Computed::Value(VaderValue::Boolean(false)));
    assert_eq!(
        VaderValue::Boolean(true).equals(&VaderValue::Boolean(true)),
        Computed::Value(VaderValue::Boolean(true))
    );
    assert_eq!(
        VaderValue::Null.equals(&VaderValue::Null),
        Computed::Value(VaderValue::Boolean(true))
    );
    assert_eq!(number(1.0).equals(&text("1")), Computed::Value(VaderValue::Boolean(false)));
    assert_eq!(
        VaderValue::empty_list().equals(&VaderValue::empty_list()),
        Computed::Value(VaderValue::Boolean(false))
    );
}

#[test]
fn numbers_and_texts_are_ordered() {
    assert_eq!(number(1.0).compare(&number(2.0)).unwrap(), Ordering::Less);
    assert_eq!(number(2.0).compare(&number(2.0)).unwrap(), Ordering::Equal);
    assert_eq!(number(0.0).compare(&number(-0.0)).unwrap(), Ordering::Equal);
    assert_eq!(number(3.0).compare(&number(-2.0)).unwrap(), Ordering::Greater);
    assert_eq!(number(f64::NAN).compare(&number(1.0)).unwrap(), Ordering::Equal);
    assert_eq!(text("abc").compare(&text("abd")).unwrap(), Ordering::Less);
    assert_eq!(text("abc").compare(&text("ab")).unwrap(), Ordering::Greater);
    assert_eq!(text("").compare(&text("")).unwrap(), Ordering::Equal);
    assert_eq!(text("z").compare(&text("ñ")).unwrap(), "z".cmp("ñ"));
    assert_eq!(text("a😀").compare(&text("a\u{ffff}")).unwrap(), "a😀".cmp("a\u{ffff}"));
    assert_eq!(number(1.0).order(&number(2.0)).unwrap(), -1);
    assert_eq!(number(1.0).less_than(&number(2.0)).unwrap(), VaderValue::Boolean(true));
    assert_eq!(number(2.0).less_than(&number(2.0)).unwrap(), VaderValue::Boolean(false));
    assert_eq!(number(2.0).less_equal(&number(2.0)).unwrap(), VaderValue::Boolean(true));
    assert_eq!(number(3.0).less_equal(&number(2.0)).unwrap(), VaderValue::Boolean(false));
    assert_eq!(number(3.0).greater_than(&number(2.0)).unwrap(), VaderValue::Boolean(true));
    assert_eq!(number(2.0).greater_than(&number(2.0)).unwrap(), VaderValue::Boolean(false));
    assert_eq!(number(2.0).greater_equal(&number(2.0)).unwrap(), VaderValue::Boolean(true));
    assert_eq!(text("a").greater_equal(&text("b")).unwrap(), VaderValue::Boolean(false));
    assert_eq!(
        number(f64::NAN).less_equal(&number(1.0)).unwrap(),
        VaderValue::Boolean(true)
    );
    assert_eq!(
        number(1.0).compare(&text("a")).unwrap_err(),
        TypeError::UnsupportedOperation {
            operation: "comparar".to_string(),
            type_label: "numero y texto".to_string()
        }
    );
    assert!(VaderValue::Null.less_than(&VaderValue::Null).is_err());
}

#[test]
fn negate_turns_numbers_and_booleans() {
    assert_eq!(number(3.0).negate().unwrap(), number(-3.0));
    assert_eq!(number(0.0).negate().unwrap(), number(-0.0));
    assert_eq!(VaderValue::Boolean(true).negate().unwrap(), VaderValue::Boolean(false));
    assert_eq!(
        text("a").negate().unwrap_err(),
        TypeError::UnsupportedOperation {
            operation: "negar".to_string(),
            type_label: "texto".to_string()
        }
    );
}

#[test]
fn values_are_indexed() {
    let list = VaderValue::List(vec![number(1.0), number(2.0), number(3.0)]);
    assert_eq!(list.index(&number(0.0)).unwrap(), number(1.0));
    assert_eq!(list.index(&number(-0.0)).unwrap(), number(1.0));
    assert_eq!(list.index(&number(2.0)).unwrap(), number(3.0));
    let no_integer = TypeError::IncompatibleType {
        expected: "entero".to_string(),
        found: "numero".to_string(),
    };
    assert_eq!(list.index(&number(2.9)).unwrap_err(), no_integer);
    assert_eq!(list.index(&number(0.5)).unwrap_err(), no_integer);
    assert_eq!(list.index(&number(f64::NAN)).unwrap_err(), no_integer);
    assert_eq!(list.index(&number(f64::INFINITY)).unwrap_err(), no_integer);
    assert_eq!(
        list.index(&number(-1.0)).unwrap_err(),
        TypeError::IndexOutOfRange { index: "-1".to_string() }
    );
    assert_eq!(
        list.index(&number(-3.0)).unwrap_err(),
        TypeError::IndexOutOfRange { index: "-3".to_string() }
    );
    assert_eq!(text("día").index(&number(-1.0)).unwrap_err(),
        TypeError::IndexOutOfRange { index: "-1".to_string() });
    assert_eq!(text("día").index(&number(1.5)).unwrap_err(), no_integer);
    assert_eq!(vader::types::place_of(2.0f64.to_bits(), 3), Ok(2));
    assert_eq!(
        vader::types::place_of(3.0f64.to_bits(), 3),
        Err(TypeError::IndexOutOfRange { index: "3".to_string() })
    );
    assert_eq!(list.get_index(&number(1.0)).unwrap(), number(2.0));
    assert_eq!(
        list.index(&number(3.0)).unwrap_err(),
        TypeError::IndexOutOfRange { index: "3".to_string() }
    );
    assert_eq!(text("día").index(&number(1.0)).unwrap(), text("í"));
    assert_eq!(
        text("día").index(&number(3.0)).unwrap_err(),
        TypeError::IndexOutOfRange { index: "3".to_string() }
    );
    let dict = VaderValue::Dict(vec![("a".to_string(), number(1.0)), ("b".to_string(), number(2.0))]);
    assert_eq!(dict.index(&text("b")).unwrap(), number(2.0));
    assert_eq!(dict.index(&text("c")).unwrap_err(), TypeError::KeyError { key: "c".to_string() });
    assert_eq!(
        dict.index(&number(0.0)).unwrap_err(),
        TypeError::UnsupportedOperation {
            operation: "indexar".to_string(),
            type_label: "diccionario y numero".to_string()
        }
    );
    assert!(number(1.0).index(&number(0.0)).is_err());
}

#[test]
fn items_and_entries_are_set() {
    let mut list = VaderValue::List(vec![number(1.0), number(2.0)]);
    assert_eq!(list.set_index(&number(1.0), text("x")), Ok(()));
    assert_eq!(list, VaderValue::List(vec![number(1.0), text("x")]));
    assert_eq!(
        list.set_index(&number(2.0), text("y")),
        Err(TypeError::IndexOutOfRange { index: "2".to_string() })
    );
    assert_eq!(
        list.set_index(&number(-1.0), text("y")),
        Err(TypeError::IndexOutOfRange { index: "-1".to_string() })
    );
    assert_eq!(
        list.set_index(&number(0.5), text("y")),
        Err(TypeError::IncompatibleType {
            expected: "entero".to_string(),
            found: "numero".to_string()
        })
    );
    assert_eq!(list, VaderValue::List(vec![number(1.0), text("x")]));
    let mut dict = VaderValue::empty_dict();
    assert_eq!(dict.set_index(&text("a"), number(1.0)), Ok(()));
    assert_eq!(dict.set_index(&text("b"), number(2.0)), Ok(()));
    assert_eq!(dict.set_index(&text("a"), number(3.0)), Ok(()));
    assert_eq!(
        dict,
        VaderValue::Dict(vec![("a".to_string(), number(3.0)), ("b".to_string(), number(2.0))])
    );
    assert_eq!(dict.len(), 2);
    assert!(dict.set_index(&number(1.0), number(1.0)).is_err());
    let mut other = text("abc");
    assert_eq!(
        other.set_index(&number(0.0), text("x")),
        Err(TypeError::UnsupportedOperation {
            operation: "asignar indice".to_string(),
            type_label: "texto y numero".to_string()
        })
    );
}

#[test]
fn members_are_read_and_set() {
    let mut object = VaderValue::Object { class_name: "Punto".to_string(), fields: vec![] };
    assert_eq!(object.set_member("x", number(1.0)), Ok(()));
    assert_eq!(object.set_member("y", number(2.0)), Ok(()));
    assert_eq!(object.set_member("x", number(3.0)), Ok(()));
    assert_eq!(object.get_member("x").unwrap(), number(3.0));
    assert_eq!(object.get_member("y").unwrap(), number(2.0));
    assert_eq!(
        object.get_member("z").unwrap_err(),
        TypeError::MemberNotFound { member: "z".to_string(), type_label: "objeto".to_string() }
    );
    assert_eq!(call("len", vec![object]).unwrap(), number(2.0));
    let list = VaderValue::List(vec![number(1.0), number(2.0)]);
    assert_eq!(list.get_member("longitud").unwrap(), number(2.0));
    assert_eq!(list.get_member("length").unwrap(), number(2.0));
    assert_eq!(text("día").get_member("length").unwrap(), number(3.0));
    assert_eq!(
        list.get_member("size").unwrap_err(),
        TypeError::MemberNotFound { member: "size".to_string(), type_label: "lista".to_string() }
    );
    assert_eq!(
        number(1.0).get_member("length").unwrap_err(),
        TypeError::MemberNotFound {
            member: "length".to_string(),
            type_label: "numero".to_string()
        }
    );
    let mut plain = number(1.0);
    assert_eq!(
        plain.set_member("x", number(1.0)),
        Err(TypeError::UnsupportedOperation {
            operation: "asignar propiedad".to_string(),
            type_label: "numero".to_string()
        })
    );
}

#[test]
fn lengths_count_characters_items_and_entries() {
    assert_eq!(text("día").len(), 3);
    assert_eq!(text("").len(), 0);
    assert_eq!(VaderValue::List(vec![number(1.0)]).len(), 1);
    assert_eq!(VaderValue::Dict(vec![("a".to_string(), number(1.0))]).len(), 1);
    assert_eq!(number(5.0).len(), 0);
    assert_eq!(call("len", vec![text("día")]).unwrap(), number(3.0));
    assert_eq!(call("longitud", vec![VaderValue::List(vec![number(1.0), number(2.0)])]).unwrap(),
        number(2.0));
    assert_eq!(call("len", vec![VaderValue::empty_dict()]).unwrap(), number(0.0));
    assert_eq!(call("len", vec![]), Err("len() requiere un argumento".to_string()));
    assert_eq!(
        call("len", vec![number(1.0)]),
        Err("len() solo funciona con texto, listas, diccionarios u objetos".to_string())
    );
}

fn numbers(values: &[f64]) -> Vec<VaderValue> {
    values.iter().map(|value| number(*value)).collect()
}

#[test]
fn iteration_visits_items_characters_keys_and_range_values() {
    assert!(VaderValue::empty_list().is_iterable());
    assert!(text("a").is_iterable());
    assert!(VaderValue::empty_dict().is_iterable());
    assert!(VaderValue::range(0, 1).is_iterable());
    assert!(!number(1.0).is_iterable());
    assert!(!VaderValue::Null.is_iterable());
    assert_eq!(
        VaderValue::List(vec![number(1.0), text("a")]).iter().unwrap(),
        vec![number(1.0), text("a")]
    );
    assert_eq!(text("día").iter().unwrap(), vec![text("d"), text("í"), text("a")]);
    assert_eq!(
        VaderValue::Dict(vec![("b".to_string(), number(1.0)), ("a".to_string(), number(2.0))])
            .iter()
            .unwrap(),
        vec![text("b"), text("a")]
    );
    assert_eq!(VaderValue::range(0, 4).iter().unwrap(), numbers(&[0.0, 1.0, 2.0, 3.0]));
    assert_eq!(
        VaderValue::range_with_step(0, 10, 3).iter().unwrap(),
        numbers(&[0.0, 3.0, 6.0, 9.0])
    );
    assert_eq!(VaderValue::range_with_step(0, 9, 3).iter().unwrap(), numbers(&[0.0, 3.0, 6.0]));
    assert_eq!(
        VaderValue::range_with_step(5, -5, -4).iter().unwrap(),
        numbers(&[5.0, 1.0, -3.0])
    );
    assert_eq!(VaderValue::range_with_step(5, 0, 1).iter().unwrap(), vec![]);
    assert_eq!(VaderValue::range_with_step(0, 5, -1).iter().unwrap(), vec![]);
    assert_eq!(VaderValue::range(3, 3).iter().unwrap(), vec![]);
    assert_eq!(VaderValue::Range { start: 0, end: 5, step: 0 }.iter().unwrap(), vec![]);
    assert_eq!(
        VaderValue::range_with_step(i64::MAX - 2, i64::MAX, 2).iter().unwrap(),
        vec![VaderValue::Number(((i64::MAX - 2) as f64).to_bits())]
    );
    assert_eq!(
        VaderValue::range_with_step(i64::MIN + 1, i64::MIN, -3).iter().unwrap().len(),
        1
    );
    for (start, end, step) in [(0i64, 10i64, 1i64), (0, 10, 3), (2, 11, 4), (10, 0, -3), (7, -8, -5)] {
        let expected = ((end - start) as f64 / step as f64).ceil().max(0.0) as usize;
        assert_eq!(
            VaderValue::range_with_step(start, end, step).iter().unwrap().len(),
            expected
        );
    }
    assert_eq!(
        number(1.0).iter().unwrap_err(),
        TypeError::UnsupportedOperation {
            operation: "iterar".to_string(),
            type_label: "numero".to_string()
        }
    );
}

#[test]
fn values_are_made() {
    assert_eq!(VaderValue::range(1, 5), VaderValue::Range { start: 1, end: 5, step: 1 });
    assert_eq!(
        VaderValue::range_with_step(5, 1, -2),
        VaderValue::Range { start: 5, end: 1, step: -2 }
    );
    assert_eq!(VaderValue::empty_list(), VaderValue::List(vec![]));
    assert_eq!(VaderValue::empty_dict(), VaderValue::Dict(vec![]));
    assert_eq!(VaderValue::from_bool(false), VaderValue::Boolean(false));
    assert_eq!(VaderValue::from_str("a"), text("a"));
    assert_eq!(VaderValue::from_number(1.5f64.to_bits()), number(1.5));
    let nested = VaderValue::List(vec![
        VaderValue::Dict(vec![("k".to_string(), VaderValue::range(0, 2))]),
        VaderValue::Function {
            name: "f".to_string(),
            params: vec!["a".to_string()],
            body: vec![AstNode::Return {
                value: Some(Box::new(AstNode::Variable { name: "a".to_string() })),
            }],
        },
    ]);
    assert_eq!(nested.copy(), nested);
    assert_eq!(nested.clone(), nested);
}

#[test]
fn type_errors_have_their_diagnostics() {
    assert_eq!(
        TypeError::IncompatibleType { expected: "a".to_string(), found: "b".to_string() }
            .message(),
        "Tipo incompatible: esperado a, encontrado b"
    );
    assert_eq!(
        TypeError::UnsupportedOperation {
            operation: "sumar".to_string(),
            type_label: "nulo".to_string()
        }
        .message(),
        "Operación no soportada: sumar en tipo nulo"
    );
    assert_eq!(
        TypeError::IndexOutOfRange { index: "7".to_string() }.message(),
        "Índice fuera de rango: 7"
    );
    assert_eq!(
        TypeError::MemberNotFound { member: "m".to_string(), type_label: "lista".to_string() }
            .message(),
        "Miembro no encontrado: m en lista"
    );
    assert_eq!(TypeError::DivisionByZero.message(), "División por cero");
    assert_eq!(TypeError::KeyError { key: "k".to_string() }.message(), "Clave no encontrada: k");
    assert_eq!(RuntimeError::from_type_error(TypeError::DivisionByZero), RuntimeError::DivisionByZero);
    assert_eq!(
        RuntimeError::from_type_error(TypeError::IndexOutOfRange { index: "1".to_string() }),
        RuntimeError::IndexOutOfRange
    );
    assert_eq!(
        RuntimeError::from_type_error(TypeError::KeyError { key: "k".to_string() }),
        RuntimeError::KeyError("k".to_string())
    );
    assert_eq!(
        RuntimeError::from_type_error(TypeError::IncompatibleType {
            expected: "a".to_string(),
            found: "b".to_string()
        }),
        RuntimeError::TypeError("Tipo incompatible: esperado a, encontrado b".to_string())
    );
}

#[test]
fn the_table_of_builtins_has_both_names_of_each_pair() {
    let stdlib = VaderStdlib::new();
    for (spanish, english, builtin) in [
        ("decir", "print", Builtin::Print),
        ("tipo", "type", Builtin::Type),
        ("longitud", "len", Builtin::Len),
        ("leer", "input", Builtin::Input),
        ("leer_archivo", "read_file", Builtin::ReadFile),
        ("escribir_archivo", "write_file", Builtin::WriteFile),
        ("mayusculas", "upper", Builtin::Upper),
        ("minusculas", "lower", Builtin::Lower),
        ("salir", "exit", Builtin::Exit),
    ] {
        assert_eq!(stdlib.get_function(spanish), Some(builtin));
        assert_eq!(stdlib.get_function(english), Some(builtin));
    }
    for (name, builtin) in [
        ("split", Builtin::Split),
        ("abs", Builtin::Abs),
        ("sqrt", Builtin::Sqrt),
        ("pow", Builtin::Pow),
        ("random", Builtin::Random),
        ("push", Builtin::Push),
        ("pop", Builtin::Pop),
        ("reverse", Builtin::Reverse),
        ("time", Builtin::Time),
    ] {
        assert_eq!(stdlib.get_function(name), Some(builtin));
    }
    assert_eq!(stdlib.get_function("Print"), None);
    assert_eq!(stdlib.get_function(""), None);
    assert_eq!(stdlib.get_function("rango"), None);
    let names = stdlib.list_functions();
    assert_eq!(names.len(), 27);
    assert!(names.contains(&"decir".to_string()));
    assert!(names.contains(&"salir".to_string()));
    assert_eq!(VaderStdlib::default().list_functions(), names);
}

#[test]
fn text_builtins_change_case_and_split() {
    assert_eq!(call("upper", vec![text("hola ñu")]).unwrap(), text("HOLA ÑU"));
    assert_eq!(call("mayusculas", vec![text("straße")]).unwrap(), text("STRASSE"));
    assert_eq!(call("lower", vec![text("HOLA Ñu")]).unwrap(), text("hola ñu"));
    assert_eq!(call("minusculas", vec![VaderValue::Boolean(true)]).unwrap(), text("verdadero"));
    assert_eq!(call("upper", vec![number(f64::NAN)]).unwrap(), text("NAN"));
    assert_eq!(call("upper", vec![number(1.5)]).unwrap(), text("1.5"));
    assert_eq!(call("upper", vec![]), Err("upper() requiere un argumento de texto".to_string()));
    assert_eq!(call("lower", vec![]), Err("lower() requiere un argumento de texto".to_string()));
    assert_eq!(
        call("split", vec![text("a b  c")]).unwrap(),
        VaderValue::List(vec![text("a"), text("b"), text(""), text("c")])
    );
    assert_eq!(
        call("split", vec![text("a,b,c"), text(",")]).unwrap(),
        VaderValue::List(vec![text("a"), text("b"), text("c")])
    );
    assert_eq!(
        call("split", vec![text("1.5x2.5"), number(2.5)]).unwrap(),
        VaderValue::List(vec![text("1.5x"), text("")])
    );
    assert_eq!(call("split", vec![text("abc"), text("x")]).unwrap(),
        VaderValue::List(vec![text("abc")]));
    assert_eq!(call("split", vec![]), Err("split() requiere un texto".to_string()));
    assert_eq!(
        text_list(vec!["a".to_string(), "".to_string()]),
        VaderValue::List(vec![text("a"), text("")])
    );
}

#[test]
fn number_builtins_compute() {
    assert_eq!(call("abs", vec![number(-2.5)]).unwrap(), number(2.5));
    assert_eq!(call("abs", vec![number(-0.0)]).unwrap(), number(0.0));
    assert_eq!(call("abs", vec![]), Err("abs() requiere un número".to_string()));
    assert_eq!(call("abs", vec![text("a")]), Err("abs() solo funciona con números".to_string()));
    assert_eq!(call("sqrt", vec![number(2.25)]).unwrap(), number(1.5));
    assert_eq!(call("sqrt", vec![number(-0.0)]).unwrap(), number(-0.0));
    assert_eq!(
        call("sqrt", vec![number(-1.0)]),
        Err("sqrt() no puede calcular raíz de número negativo".to_string())
    );
    assert_eq!(call("sqrt", vec![]), Err("sqrt() requiere un número".to_string()));
    assert_eq!(call("sqrt", vec![text("a")]), Err("sqrt() solo funciona con números".to_string()));
    assert_eq!(call("pow", vec![number(2.0), number(0.5)]).unwrap(), number(2f64.powf(0.5)));
    assert_eq!(call("pow", vec![number(2.0)]), Err("pow() requiere base y exponente".to_string()));
    assert_eq!(
        call("pow", vec![number(2.0), text("a")]),
        Err("pow() solo funciona con números".to_string())
    );
    assert_eq!(call("random", vec![]).unwrap(), number(0.25));
    assert_eq!(call("time", vec![]).unwrap(), number(1700000000.0));
}

#[test]
fn list_builtins_leave_their_argument_as_it_is() {
    let list = VaderValue::List(vec![number(1.0), number(2.0)]);
    assert_eq!(
        call("push", vec![list.clone(), text("x")]).unwrap(),
        VaderValue::List(vec![number(1.0), number(2.0), text("x")])
    );
    assert_eq!(call("pop", vec![list.clone()]).unwrap(), number(2.0));
    assert_eq!(
        call("reverse", vec![VaderValue::List(vec![number(1.0), number(2.0), number(3.0)])])
            .unwrap(),
        VaderValue::List(vec![number(3.0), number(2.0), number(1.0)])
    );
    assert_eq!(call("reverse", vec![VaderValue::empty_list()]).unwrap(), VaderValue::empty_list());
    assert_eq!(call("push", vec![list.clone()]), Err("push() requiere lista y elemento".to_string()));
    assert_eq!(
        call("push", vec![text("a"), text("b")]),
        Err("push() solo funciona con listas".to_string())
    );
    assert_eq!(call("pop", vec![]), Err("pop() requiere una lista".to_string()));
    assert_eq!(
        call("pop", vec![VaderValue::empty_list()]),
        Err("No se puede hacer pop() de lista vacía".to_string())
    );
    assert_eq!(call("pop", vec![number(1.0)]), Err("pop() solo funciona con listas".to_string()));
    assert_eq!(call("reverse", vec![]), Err("reverse() requiere una lista".to_string()));
    assert_eq!(
        call("reverse", vec![number(1.0)]),
        Err("reverse() solo funciona con listas".to_string())
    );
}

#[test]
fn builtins_that_read_and_write_ask_the_driver() {
    assert_eq!(
        Builtin::Print.call(&vec![text("a"), number(1.0)]).unwrap(),
        Computed::Pending {
            request: Request::Print { text: "a 1".to_string() },
            completion: Completion::Value { value: text("a 1") }
        }
    );
    assert_eq!(
        Builtin::Print.call(&vec![]).unwrap(),
        Computed::Pending {
            request: Request::Print { text: String::new() },
            completion: Completion::Value { value: text("") }
        }
    );
    assert_eq!(
        Builtin::Print.call(&vec![text("a"), number(1.5)]).unwrap(),
        Computed::Pending {
            request: Request::Render { pieces: vec![TextPiece::Fraction(1.5f64.to_bits())] },
            completion: Completion::Argument {
                builtin: Builtin::Print,
                arguments: vec![text("a"), number(1.5)],
                index: 1
            }
        }
    );
    assert_eq!(
        Builtin::Input.call(&vec![]).unwrap(),
        Computed::Pending { request: Request::Input { prompt: None }, completion: Completion::Line }
    );
    assert_eq!(
        Builtin::Input.call(&vec![text("? ")]).unwrap(),
        Computed::Pending {
            request: Request::Input { prompt: Some("? ".to_string()) },
            completion: Completion::Line
        }
    );
    let mut driver = Driver::new();
    driver.lines = vec!["  hola \r\n".to_string(), "sin fin".to_string()];
    assert_eq!(driver.settle(Builtin::Input.call(&vec![]).unwrap()), text("  hola "));
    assert_eq!(driver.settle(Builtin::Input.call(&vec![]).unwrap()), text("sin fin"));
    assert_eq!(
        complete(Completion::Line, Answer::Text("a\n\n".to_string())),
        Ok(Computed::Value(text("a\n")))
    );
    assert_eq!(
        complete(Completion::Line, Answer::Failure("cerrado".to_string())),
        Err(RuntimeError::BuiltinError("cerrado".to_string()))
    );
    assert_eq!(
        Builtin::ReadFile.call(&vec![text("a.txt")]).unwrap(),
        Computed::Pending {
            request: Request::ReadFile { path: "a.txt".to_string() },
            completion: Completion::FileRead { path: "a.txt".to_string() }
        }
    );
    assert_eq!(
        complete(
            Completion::FileRead { path: "a.txt".to_string() },
            Answer::Text("contenido".to_string())
        ),
        Ok(Computed::Value(text("contenido")))
    );
    assert_eq!(
        complete(
            Completion::FileRead { path: "a.txt".to_string() },
            Answer::Failure("no existe".to_string())
        ),
        Err(RuntimeError::BuiltinError("Error leyendo archivo 'a.txt': no existe".to_string()))
    );
    assert_eq!(
        Builtin::ReadFile.call(&vec![]),
        Err("read_file() requiere un nombre de archivo".to_string())
    );
    assert_eq!(
        Builtin::WriteFile.call(&vec![text("a.txt"), number(5.0)]).unwrap(),
        Computed::Pending {
            request: Request::WriteFile { path: "a.txt".to_string(), contents: "5".to_string() },
            completion: Completion::FileWritten { path: "a.txt".to_string() }
        }
    );
    assert_eq!(call("write_file", vec![text("a.txt"), text("x")]).unwrap(), VaderValue::Boolean(true));
    assert_eq!(
        complete(
            Completion::FileWritten { path: "a.txt".to_string() },
            Answer::Failure("lleno".to_string())
        ),
        Err(RuntimeError::BuiltinError("Error escribiendo archivo 'a.txt': lleno".to_string()))
    );
    assert_eq!(
        Builtin::WriteFile.call(&vec![text("a.txt")]),
        Err("write_file() requiere nombre de archivo y contenido".to_string())
    );
    for (arguments, code) in [
        (vec![], 0),
        (vec![number(3.0)], 3),
        (vec![number(-2.9)], -2),
        (vec![number(1e10)], i32::MAX),
        (vec![number(f64::NAN)], 0),
        (vec![text("7")], 0),
    ] {
        assert_eq!(
            Builtin::Exit.call(&arguments).unwrap(),
            Computed::Pending { request: Request::Exit { code }, completion: Completion::Halt }
        );
    }
}

#[test]
fn answers_become_values() {
    assert_eq!(complete(Completion::Number, Answer::Number(7)), Ok(Computed::Value(VaderValue::Number(7))));
    assert_eq!(
        complete(Completion::Equality { negated: false }, Answer::Number(0)),
        Ok(Computed::Value(VaderValue::Boolean(true)))
    );
    assert_eq!(
        complete(Completion::Equality { negated: true }, Answer::Number(0)),
        Ok(Computed::Value(VaderValue::Boolean(false)))
    );
    assert_eq!(
        complete(Completion::Equality { negated: false }, Answer::Number(f64::NAN.to_bits())),
        Ok(Computed::Value(VaderValue::Boolean(false)))
    );
    assert_eq!(
        complete(Completion::Text, Answer::Text("a".to_string())),
        Ok(Computed::Value(text("a")))
    );
    assert_eq!(
        complete(Completion::Value { value: number(1.0) }, Answer::Done),
        Ok(Computed::Value(number(1.0)))
    );
    assert_eq!(complete(Completion::Halt, Answer::Done), Ok(Computed::Value(VaderValue::Null)));
    assert_eq!(
        complete(Completion::Number, Answer::Done),
        Err(RuntimeError::BuiltinError("Respuesta inesperada".to_string()))
    );
    assert_eq!(
        complete(
            Completion::Argument { builtin: Builtin::Upper, arguments: vec![number(1.5)], index: 0 },
            Answer::Text("1.5".to_string())
        ),
        Ok(Computed::Value(text("1.5")))
    );
    assert_eq!(
        complete(
            Completion::Argument { builtin: Builtin::Upper, arguments: vec![number(1.5)], index: 3 },
            Answer::Text("1.5".to_string())
        ),
        Err(RuntimeError::InvalidExpression)
    );
}

#[test]
fn operators_are_applied_by_their_text() {
    let plus = "+".to_string();
    assert_eq!(settle(apply_binary(&plus, &number(1.0), &number(2.0)).unwrap()), number(3.0));
    assert_eq!(
        settle(apply_binary(&"!=".to_string(), &number(1.0), &number(2.0)).unwrap()),
        VaderValue::Boolean(true)
    );
    assert_eq!(
        settle(apply_binary(&"!=".to_string(), &text("a"), &text("a")).unwrap()),
        VaderValue::Boolean(false)
    );
    assert_eq!(
        settle(apply_binary(&">=".to_string(), &number(2.0), &number(2.0)).unwrap()),
        VaderValue::Boolean(true)
    );
    assert_eq!(
        apply_binary(&"^".to_string(), &number(2.0), &number(2.0)),
        Err(RuntimeError::UnsupportedOperation("^".to_string()))
    );
    assert_eq!(apply_unary(&"-".to_string(), &number(2.0)), Ok(number(-2.0)));
    assert_eq!(apply_unary(&"no".to_string(), &number(2.0)), Ok(VaderValue::Boolean(false)));
    assert_eq!(apply_unary(&"not".to_string(), &text("")), Ok(VaderValue::Boolean(true)));
    assert_eq!(
        apply_unary(&"!".to_string(), &number(2.0)),
        Err(RuntimeError::UnsupportedOperation("!".to_string()))
    );
    assert_eq!(count_range(0, 10, 3), 4);
    assert_eq!(count_range(0, 9, 3), 3);
    assert_eq!(count_range(10, 0, -3), 4);
    assert_eq!(count_range(0, 10, -3), 0);
    assert_eq!(count_range(0, 10, 0), 0);
    assert_eq!(count_range(i64::MIN, i64::MAX, 1), u64::MAX);
    assert_eq!(count_range(i64::MAX, i64::MIN, -1), u64::MAX);
    assert_eq!(count_range(i64::MIN, i64::MAX, i64::MAX), 3);
}

#[test]
fn environments_nest() {
    let mut outer = Environment::new();
    outer.set("x".to_string(), number(1.0));
    outer.define("y".to_string(), number(2.0));
    assert_eq!(outer.get("x"), Some(number(1.0)));
    assert_eq!(outer.get("z"), None);
    let mut inner = Environment::with_parent(outer);
    assert_eq!(inner.get("x"), Some(number(1.0)));
    inner.set("x".to_string(), number(10.0));
    inner.set("w".to_string(), number(3.0));
    assert_eq!(inner.get("x"), Some(number(10.0)));
    assert_eq!(inner.get("y"), Some(number(2.0)));
    let outer = inner.leave();
    assert_eq!(outer.get("x"), Some(number(1.0)));
    assert_eq!(outer.get("w"), None);
    let same = outer.leave();
    assert_eq!(same.get("y"), Some(number(2.0)));
    assert_eq!(Environment::default().get("x"), None);
}

#[test]
fn the_compiler_knows_its_level_and_its_file() {
    assert_eq!(VaderCompiler::new(0).optimization_message(), "Sin optimizaciones");
    assert_eq!(VaderCompiler::new(1).optimization_message(), "Optimizaciones básicas");
    assert_eq!(VaderCompiler::new(2).optimization_message(), "Optimizaciones estándar");
    assert_eq!(VaderCompiler::new(3).optimization_message(), "Optimizaciones agresivas");
    assert_eq!(VaderCompiler::new(9).optimization_message(), "Nivel de optimización no válido");
    assert_eq!(VaderCompiler::new(2).optimization_level(), 2);
    assert_eq!(VaderCompiler::artifact_name("programa"), "programa.exe");
    assert_eq!(VaderCompiler::placeholder(), "VADER_EXECUTABLE_PLACEHOLDER");
    assert_eq!(
        CompileError::LlvmError("x".to_string()).message(),
        "Error de compilación LLVM: x"
    );
    assert_eq!(
        CompileError::UnsupportedType("x".to_string()).message(),
        "Tipo no soportado para compilación: x"
    );
    assert_eq!(
        CompileError::FunctionNotFound("x".to_string()).message(),
        "Función no encontrada: x"
    );
    assert_eq!(
        CompileError::OptimizationError("x".to_string()).message(),
        "Error de optimización: x"
    );
    let mut codegen = vader::compiler::LlvmCodegen::new();
    assert_eq!(codegen.compile_ast(&AstNode::Block { statements: vec![] }), Ok(()));
}

#[test]
fn the_runtime_names_its_version() {
    assert_eq!(vader::VERSION, "1.0.0");
    assert_eq!(vader::runtime_info(), "Vader Native Runtime v1.0.0 - Rust Edition");
}

#[test]
fn numerals_are_written_in_decimal() {
    assert_eq!(vader::text::numeral_of(0), "0");
    assert_eq!(vader::text::numeral_of(1234567890), "1234567890");
    assert_eq!(vader::text::numeral_of(u64::MAX), "18446744073709551615");
    assert_eq!(vader::text::signed_numeral_of(-45), "-45");
    assert_eq!(vader::text::signed_numeral_of(i64::MIN), "-9223372036854775808");
    assert_eq!(vader::text::strip_line_end(&"a\r\n".to_string()), "a");
    assert_eq!(vader::text::strip_line_end(&"a\r".to_string()), "a\r");
    assert_eq!(vader::text::strip_line_end(&"\n".to_string()), "");
    assert_eq!(vader::text::strip_line_end(&"".to_string()), "");
    assert_eq!(vader::text::chars_of("día"), vec!['d', 'í', 'a']);
    assert_eq!(vader::text::text_of(&vec!['a', 'b', 'c'], 1, 3), "bc");
    assert!(vader::text::is_word(&"si".to_string(), "si"));
    assert!(!vader::text::is_word(&"si".to_string(), "sino"));
}
