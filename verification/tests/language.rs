use std::time::Instant;
use vader::{
    Action, Answer, AstNode, Computed, LexError, NumberOp, Request, RuntimeError, TextPiece, Token,
    TokenType, VaderInterpreter, VaderLexer, VaderParser, VaderValue,
};

fn number(value: f64) -> VaderValue {
    VaderValue::Number(value.to_bits())
}

fn text(value: &str) -> VaderValue {
    VaderValue::String(value.to_string())
}

fn lex(code: &str) -> Result<Vec<Token>, LexError> {
    let mut lexer = VaderLexer::new(code);
    let values: Vec<u64> = lexer
        .numerals()
        .iter()
        .map(|numeral| numeral.parse::<f64>().map(f64::to_bits).unwrap_or(0))
        .collect();
    lexer.tokenize(&values)
}

fn arithmetic(op: NumberOp, left: u64, right: u64) -> u64 {
    let a = f64::from_bits(left);
    let b = f64::from_bits(right);
    let result = match op {
        NumberOp::Add => a + b,
        NumberOp::Subtract => a - b,
        NumberOp::Multiply => a * b,
        NumberOp::Divide => a / b,
        NumberOp::Modulo => a % b,
        NumberOp::Power => a.powf(b),
        NumberOp::SquareRoot => a.sqrt(),
    };
    result.to_bits()
}

fn render(pieces: &[TextPiece]) -> String {
    let mut out = String::new();
    for piece in pieces {
        match piece {
            TextPiece::Plain(plain) => out.push_str(plain),
            TextPiece::Fraction(bits) => out.push_str(&format!("{}", f64::from_bits(*bits))),
        }
    }
    out
}

struct Driver {
    printed: Vec<String>,
    lines: Vec<String>,
    requests: usize,
}

impl Driver {
    fn new() -> Self {
        Driver { printed: Vec::new(), lines: Vec::new(), requests: 0 }
    }

    fn answer(&mut self, request: Request) -> Answer {
        self.requests += 1;
        match request {
            Request::Arithmetic { op, left, right } => Answer::Number(arithmetic(op, left, right)),
            Request::Render { pieces } => Answer::Text(render(&pieces)),
            Request::Print { text } => {
                println!("{}", text);
                self.printed.push(text);
                Answer::Done
            }
            Request::Input { prompt } => {
                if let Some(prompt) = prompt {
                    self.printed.push(prompt);
                }
                if self.lines.is_empty() {
                    Answer::Failure("fin de la entrada".to_string())
                } else {
                    Answer::Text(self.lines.remove(0))
                }
            }
            Request::ReadFile { path } => Answer::Failure(format!("no existe {}", path)),
            Request::WriteFile { path, contents } => {
                self.printed.push(format!("{} <- {}", path, contents));
                Answer::Done
            }
            Request::Random => Answer::Number(0.25f64.to_bits()),
            Request::Time => Answer::Number(1700000000.0f64.to_bits()),
            Request::Exit { code } => panic!("exit {}", code),
        }
    }

    fn run(
        &mut self,
        interpreter: &mut VaderInterpreter,
        program: Vec<AstNode>,
    ) -> Result<VaderValue, RuntimeError> {
        let mut action = interpreter.interpret(program);
        loop {
            action = match action {
                Action::Continue => interpreter.resume(None),
                Action::Request(request) => {
                    let answer = self.answer(request);
                    interpreter.resume(Some(answer))
                }
                Action::Finished(result) => return result,
            };
        }
    }

    fn settle(&mut self, computed: Computed) -> VaderValue {
        match computed {
            Computed::Value(value) => value,
            Computed::Pending { request, completion } => {
                let answer = self.answer(request);
                let next = vader::interpreter::complete(completion, answer).unwrap();
                self.settle(next)
            }
        }
    }
}

fn settle(computed: Computed) -> VaderValue {
    Driver::new().settle(computed)
}

fn parse_code(code: &str) -> Result<Vec<AstNode>, String> {
    let tokens = lex(code).map_err(|error| error.message())?;
    let mut parser = VaderParser::new(tokens);
    parser.parse().map_err(|error| error.message())
}

fn execute_vader_code(code: &str) -> Result<VaderValue, String> {
    let program = parse_code(code)?;
    let mut interpreter = VaderInterpreter::new();
    Driver::new().run(&mut interpreter, program).map_err(|error| error.message())
}

fn run_error(code: &str) -> RuntimeError {
    let program = parse_code(code).unwrap();
    let mut interpreter = VaderInterpreter::new();
    Driver::new().run(&mut interpreter, program).unwrap_err()
}

#[test]
fn test_simple_arithmetic() {
    let tokens = lex("2 + 3").unwrap();
    let mut parser = VaderParser::new(tokens);
    let ast = parser.parse().unwrap();
    let mut interpreter = VaderInterpreter::new();

    let result = Driver::new().run(&mut interpreter, ast).unwrap();
    assert_eq!(result, number(5.0));
}

#[test]
fn interpreter_test_variable_assignment() {
    let tokens = lex("x = 42").unwrap();
    let mut parser = VaderParser::new(tokens);
    let ast = parser.parse().unwrap();
    let mut interpreter = VaderInterpreter::new();

    let result = Driver::new().run(&mut interpreter, ast).unwrap();
    assert_eq!(result, number(42.0));
    assert_eq!(interpreter.environment().get("x"), Some(number(42.0)));
}

#[test]
fn interpreter_old_test_arithmetic() {
    let result = execute_vader_code("2 + 3 * 4").unwrap();
    assert_eq!(result, number(14.0));
}

#[test]
fn test_variables() {
    let result = execute_vader_code("x = 42\nx").unwrap();
    assert_eq!(result, number(42.0));
}

#[test]
fn test_print() {
    let result = execute_vader_code("decir \"Hola mundo\"");
    assert!(result.is_ok());
}

#[test]
fn test_if_statement() {
    let result = execute_vader_code("si verdadero:\n    42\nsino:\n    0").unwrap();
    assert_eq!(result, number(42.0));
}

#[test]
fn test_function_call() {
    let result = execute_vader_code("longitud([1, 2, 3])").unwrap();
    assert_eq!(result, number(3.0));
}

#[test]
fn test_simple_string() {
    let code = r#""Hola mundo""#;
    let result = execute_vader_code(code).unwrap();
    println!("Resultado simple string: {:?}", result);

    match result {
        VaderValue::String(s) => {
            println!("String obtenido: '{}'", s);
            assert_eq!(s, "Hola mundo");
        }
        _ => panic!("Expected string result, got: {:?}", result),
    }
}

#[test]
fn test_string_concatenation() {
    let code = r#""Hola " + "mundo""#;
    let result = execute_vader_code(code).unwrap();
    println!("Resultado concatenación: {:?}", result);

    match result {
        VaderValue::String(s) => {
            println!("String concatenado: '{}'", s);
            assert_eq!(s, "Hola mundo");
        }
        _ => panic!("Expected string result, got: {:?}", result),
    }
}

#[test]
fn test_decir_simple() {
    let code = r#"decir("Hola mundo")"#;
    let result = execute_vader_code(code).unwrap();
    println!("Resultado decir simple: {:?}", result);

    match result {
        VaderValue::String(s) => {
            println!("Decir retornó: '{}'", s);
            assert_eq!(s, "Hola mundo");
        }
        _ => panic!("Expected string result, got: {:?}", result),
    }
}

#[test]
fn test_decir_concatenation() {
    let code = r#"decir("Hola " + "mundo")"#;
    let result = execute_vader_code(code).unwrap();
    println!("Resultado decir concatenación: {:?}", result);

    match result {
        VaderValue::String(s) => {
            println!("Decir concatenación: '{}'", s);
            assert_eq!(s, "Hola mundo");
        }
        _ => panic!("Expected string result, got: {:?}", result),
    }
}

#[test]
fn test_lexer_tokens() {
    let code = r#"decir "Hola " + "mundo""#;
    let tokens = lex(code).unwrap();

    println!("Tokens generados:");
    for (i, token) in tokens.iter().enumerate() {
        println!("  {}: {:?}", i, token);
    }

    assert!(tokens.len() > 0);
}

#[test]
fn test_decir_function_debug() {
    let code = r#"decir "Hola mundo""#;
    println!("Código: {}", code);

    let tokens = lex(code).unwrap();
    for (i, token) in tokens.iter().enumerate() {
        println!("  {}: {:?}", i, token);
    }

    let mut parser = VaderParser::new(tokens);
    let ast = parser.parse().unwrap();
    println!("AST GENERADO: {:?}", ast);

    let mut interpreter = VaderInterpreter::new();

    let stdlib = &interpreter.stdlib;
    let has_decir = stdlib.get_function("decir").is_some();
    println!("  ¿Tiene función 'decir'?: {}", has_decir);

    let has_print = stdlib.get_function("print").is_some();
    println!("  ¿Tiene función 'print'?: {}", has_print);

    match Driver::new().run(&mut interpreter, ast) {
        Ok(result) => {
            println!("Resultado: {:?}", result);
        }
        Err(error) => {
            println!("Error: {:?}", error);
            panic!("Error ejecutando código: {:?}", error);
        }
    }
}

#[test]
fn test_function_definition_debug() {
    let code = r#"
        funcion suma(a, b):
            retornar a + b
        
        suma(5, 7)
        "#;
    println!("Código: {}", code);

    let tokens = lex(code).unwrap();
    for (i, token) in tokens.iter().enumerate() {
        println!("  {}: {:?}", i, token);
    }

    let mut parser = VaderParser::new(tokens);
    let ast = parser.parse().unwrap();
    println!("AST GENERADO: {:?}", ast);

    let mut interpreter = VaderInterpreter::new();

    match Driver::new().run(&mut interpreter, ast) {
        Ok(result) => {
            println!("Resultado: {:?}", result);
            match result {
                VaderValue::Number(bits) => {
                    let n = f64::from_bits(bits);
                    println!("Número obtenido: {}", n);
                    assert_eq!(n, 12.0);
                }
                _ => {
                    println!("Tipo de resultado inesperado: {:?}", result);
                    panic!("Expected number result, got: {:?}", result);
                }
            }
        }
        Err(error) => {
            println!("Error: {:?}", error);
            panic!("Error ejecutando código: {:?}", error);
        }
    }
}

#[test]
fn test_logical_operators_detailed_debug() {
    let code = "(x > y) y (x != y)";
    println!("Código: {}", code);

    let tokens = lex(code).unwrap();

    for (i, token) in tokens.iter().enumerate() {
        println!("  {}: {:?}", i, token);
    }

    let mut parser = VaderParser::new(tokens);
    match parser.parse() {
        Ok(ast) => {
            for (i, node) in ast.iter().enumerate() {
                println!("    {}: {:?}", i, node);
            }
        }
        Err(e) => {
            println!("Error de parsing: {:?}", e);
        }
    }
}

#[test]
fn test_simple_logical_and() {
    let code = "verdadero y falso";
    println!("Código: {}", code);

    let tokens = lex(code).unwrap();

    for token in &tokens {
        println!("  {:?}", token);
    }

    let mut parser = VaderParser::new(tokens);
    match parser.parse() {
        Ok(ast) => {
            println!("AST: {:?}", ast);

            let mut interpreter = VaderInterpreter::new();
            match Driver::new().run(&mut interpreter, ast) {
                Ok(result) => println!("Resultado: {:?}", result),
                Err(e) => println!("Error de interpretación: {:?}", e),
            }
        }
        Err(e) => {
            println!("Error de parsing: {:?}", e);
        }
    }
}

#[test]
fn test_comparison_with_logical() {
    let code = r#"
    x = 10
    y = 5
    x > y
    "#;
    println!("Código: {}", code);

    let tokens = lex(code).unwrap();

    let mut parser = VaderParser::new(tokens);
    match parser.parse() {
        Ok(ast) => {
            println!("AST: {:?}", ast);

            let mut interpreter = VaderInterpreter::new();
            match Driver::new().run(&mut interpreter, ast) {
                Ok(result) => println!("Resultado: {:?}", result),
                Err(e) => println!("Error de interpretación: {:?}", e),
            }
        }
        Err(e) => {
            println!("Error de parsing: {:?}", e);
        }
    }
}

#[test]
fn test_exact_failing_case() {
    let code = r#"
        x = 10
        y = 5
        (x > y) y (x != y)
        "#;
    println!("Código: {}", code);

    let tokens = lex(code).unwrap();

    for (i, token) in tokens.iter().enumerate() {
        println!("  {}: {:?}", i, token);
    }

    let mut parser = VaderParser::new(tokens);
    match parser.parse() {
        Ok(ast) => {
            println!("AST: {:?}", ast);

            let mut interpreter = VaderInterpreter::new();
            match Driver::new().run(&mut interpreter, ast) {
                Ok(result) => println!("Resultado: {:?}", result),
                Err(e) => println!("Error de interpretación: {:?}", e),
            }
        }
        Err(e) => {
            println!("Error de parsing: {:?}", e);
        }
    }
}

#[test]
fn test_function_with_parens() {
    let code = r#"decir("Hola mundo")"#;
    let result = execute_vader_code(code).unwrap();
    println!("Con paréntesis: {:?}", result);

    match result {
        VaderValue::String(s) => assert_eq!(s, "Hola mundo"),
        _ => panic!("Expected string result, got: {:?}", result),
    }
}

#[test]
fn test_function_without_parens() {
    let code = r#"decir "Hola mundo""#;
    let result = execute_vader_code(code).unwrap();
    println!("Sin paréntesis: {:?}", result);

    match result {
        VaderValue::String(s) => assert_eq!(s, "Hola mundo"),
        _ => panic!("Expected string result, got: {:?}", result),
    }
}

#[test]
fn test_parse_tokens_with_parens() {
    let code = r#"decir("Hola mundo")"#;
    let tokens = lex(code).unwrap();

    for (i, token) in tokens.iter().enumerate() {
        println!("  {}: {:?}", i, token);
    }

    let mut parser = VaderParser::new(tokens);
    let ast = parser.parse().unwrap();

    for (i, node) in ast.iter().enumerate() {
        println!("  {}: {:?}", i, node);
    }
}

#[test]
fn test_parse_tokens_without_parens() {
    let code = r#"decir "Hola mundo""#;
    let tokens = lex(code).unwrap();

    for (i, token) in tokens.iter().enumerate() {
        println!("  {}: {:?}", i, token);
    }

    let mut parser = VaderParser::new(tokens);
    let ast = parser.parse().unwrap();

    for (i, node) in ast.iter().enumerate() {
        println!("  {}: {:?}", i, node);
    }
}

#[test]
fn test_basic_arithmetic() {
    let code = "2 + 3 * 4";
    let result = execute_vader_code(code).unwrap();

    match result {
        VaderValue::Number(n) => assert_eq!(f64::from_bits(n), 14.0),
        _ => panic!("Expected number result"),
    }
}

#[test]
fn runtime_validation_test_string_operations() {
    let code = r#"decir "Hola " + "mundo""#;
    let result = execute_vader_code(code).unwrap();

    match result {
        VaderValue::String(s) => assert_eq!(s, "Hola mundo"),
        _ => panic!("Expected string result"),
    }
}

#[test]
fn runtime_validation_test_variable_assignment() {
    let code = r#"
        x = 10
        y = 20
        x + y
        "#;
    let result = execute_vader_code(code).unwrap();

    match result {
        VaderValue::Number(n) => assert_eq!(f64::from_bits(n), 30.0),
        _ => panic!("Expected number result"),
    }
}

#[test]
fn test_conditional_logic() {
    let code = r#"
        x = 15
        si x > 10:
            "mayor"
        sino:
            "menor"
        "#;
    let result = execute_vader_code(code).unwrap();

    match result {
        VaderValue::String(s) => assert_eq!(s, "mayor"),
        _ => panic!("Expected string result"),
    }
}

#[test]
fn test_function_definition() {
    let code = r#"
        funcion suma(a, b):
            retornar a + b
        
        suma(5, 7)
        "#;
    let result = execute_vader_code(code).unwrap();

    match result {
        VaderValue::Number(n) => assert_eq!(f64::from_bits(n), 12.0),
        _ => panic!("Expected number result"),
    }
}

#[test]
fn test_while_loop() {
    let code = r#"
        contador = 0
        suma = 0
        mientras contador < 5:
            suma = suma + contador
            contador = contador + 1
        suma
        "#;
    let result = execute_vader_code(code).unwrap();

    match result {
        VaderValue::Number(n) => assert_eq!(f64::from_bits(n), 10.0),
        _ => panic!("Expected number result"),
    }
}

#[test]
fn test_comparison_operators() {
    let code = r#"
        x = 10
        y = 5
        (x > y) y (x != y)
        "#;
    let result = execute_vader_code(code).unwrap();

    match result {
        VaderValue::Boolean(b) => assert!(b),
        _ => panic!("Expected boolean result"),
    }
}

#[test]
fn test_nested_expressions() {
    let code = r#"
        x = 2
        y = 3
        z = 4
        (x + y) * z - 1
        "#;
    let result = execute_vader_code(code).unwrap();

    match result {
        VaderValue::Number(n) => assert_eq!(f64::from_bits(n), 19.0),
        _ => panic!("Expected number result"),
    }
}

#[test]
fn test_error_handling() {
    let code = "x + y";
    let result = execute_vader_code(code);

    assert!(result.is_err(), "Should fail with undefined variables");
}

#[test]
fn test_arithmetic_performance() {
    let code = "1 + 2 * 3 - 4 / 2";
    let start = Instant::now();

    for _ in 0..1000 {
        let _ = execute_vader_code(code).unwrap();
    }

    let duration = start.elapsed();
    println!("1000 operaciones aritméticas: {:?}", duration);

    assert!(duration.as_millis() < 100, "Performance too slow: {:?}", duration);
}

#[test]
fn test_string_performance() {
    let code = r#""Hola" + " " + "mundo" + "!""#;
    let start = Instant::now();

    for _ in 0..1000 {
        let _ = execute_vader_code(code).unwrap();
    }

    let duration = start.elapsed();
    println!("1000 operaciones de string: {:?}", duration);

    assert!(duration.as_millis() < 200, "String performance too slow: {:?}", duration);
}

#[test]
fn test_complex_expression_performance() {
    let code = r#"
        x = 10
        y = 20
        z = 30
        resultado = (x + y) * z - (x * y) + z / x
        resultado
        "#;
    let start = Instant::now();

    for _ in 0..500 {
        let _ = execute_vader_code(code).unwrap();
    }

    let duration = start.elapsed();
    println!("500 expresiones complejas: {:?}", duration);

    assert!(duration.as_millis() < 300, "Complex expression performance too slow: {:?}", duration);
}

#[test]
fn test_deep_recursion_simulation() {
    let code = r#"
        contador = 0
        resultado = 1
        mientras contador < 100:
            resultado = resultado + contador
            contador = contador + 1
        resultado
        "#;

    let start = Instant::now();
    let result = execute_vader_code(code).unwrap();
    let duration = start.elapsed();

    println!("Recursión profunda simulada: {:?}", duration);

    match result {
        VaderValue::Number(n) => {
            assert_eq!(f64::from_bits(n), 4951.0);
        }
        _ => panic!("Expected number result"),
    }
}

#[test]
fn test_large_string_concatenation() {
    let code = r#"
        resultado = ""
        contador = 0
        mientras contador < 50:
            resultado = resultado + "test"
            contador = contador + 1
        resultado
        "#;

    let start = Instant::now();
    let result = execute_vader_code(code).unwrap();
    let duration = start.elapsed();

    println!("Concatenación masiva de strings: {:?}", duration);

    match result {
        VaderValue::String(s) => {
            assert_eq!(s.len(), 200);
        }
        _ => panic!("Expected string result"),
    }

    assert!(duration.as_millis() < 500, "String concatenation too slow: {:?}", duration);
}

#[test]
fn an_undefined_variable_is_reported_by_its_name() {
    assert_eq!(run_error("x + y"), RuntimeError::UndefinedVariable("x".to_string()));
}

#[test]
fn decir_prints_and_returns_its_text() {
    let program = parse_code(r#"decir "Hola " + "mundo""#).unwrap();
    let mut interpreter = VaderInterpreter::new();
    let mut driver = Driver::new();
    let result = driver.run(&mut interpreter, program).unwrap();
    assert_eq!(result, text("Hola mundo"));
    assert_eq!(driver.printed, vec!["Hola mundo".to_string()]);
}

#[test]
fn print_returns_its_text_too() {
    let program = parse_code("print 1 + 1").unwrap();
    let mut interpreter = VaderInterpreter::new();
    let mut driver = Driver::new();
    assert_eq!(driver.run(&mut interpreter, program).unwrap(), text("2"));
    assert_eq!(driver.printed, vec!["2".to_string()]);
}

#[test]
fn print_joins_its_arguments_with_spaces() {
    let call = AstNode::FunctionCall {
        name: "print".to_string(),
        args: vec![
            AstNode::Literal { value: number(1.5) },
            AstNode::Literal { value: text("y") },
            AstNode::Literal { value: VaderValue::Boolean(true) },
            AstNode::Literal { value: VaderValue::Null },
        ],
    };
    let mut interpreter = VaderInterpreter::new();
    let mut driver = Driver::new();
    let result = driver.run(&mut interpreter, vec![call]).unwrap();
    assert_eq!(result, text("1.5 y verdadero nulo"));
    assert_eq!(driver.printed, vec!["1.5 y verdadero nulo".to_string()]);
}

#[test]
fn a_bare_y_between_names_is_a_name() {
    let code = "a = verdadero\nb = falso\na y no b";
    let tokens = lex(code).unwrap();
    let kinds: Vec<&TokenType> = tokens.iter().map(|token| &token.token_type).collect();
    assert_eq!(*kinds[9], TokenType::Identifier("y".to_string()));
    assert_eq!(run_error(code), RuntimeError::UndefinedVariable("y".to_string()));
    assert_eq!(
        execute_vader_code("a = verdadero\nb = falso\n(a) y (no b)").unwrap(),
        VaderValue::Boolean(true)
    );
    assert_eq!(
        execute_vader_code("a = verdadero\nb = falso\na and not b").unwrap(),
        VaderValue::Boolean(true)
    );
}

#[test]
fn semicolons_do_not_separate_statements() {
    assert!(parse_code("a1 = 1; a2 = 2").is_err());
}

#[test]
fn a_builtin_wins_over_a_binding_of_its_name() {
    let code = "funcion len(x):\n  retornar 99\nlen(\"hola\")";
    assert_eq!(execute_vader_code(code).unwrap(), number(4.0));
    let code = "funcion mia(x):\n  retornar 99\nmia(\"hola\")";
    assert_eq!(execute_vader_code(code).unwrap(), number(99.0));
}

#[test]
fn a_name_bound_in_a_function_does_not_leak() {
    let code = "funcion f(a):\n  local = a + 1\n  retornar local\nf(1)";
    let program = parse_code(code).unwrap();
    let mut interpreter = VaderInterpreter::new();
    let result = Driver::new().run(&mut interpreter, program).unwrap();
    assert_eq!(result, number(2.0));
    assert_eq!(interpreter.environment().get("local"), None);
    assert_eq!(interpreter.environment().get("a"), None);
    assert!(interpreter.environment().get("f").is_some());
}

#[test]
fn a_function_sees_the_bindings_of_its_caller() {
    let code = "base = 10\nfuncion f(a):\n  retornar a + base\nf(5)";
    assert_eq!(execute_vader_code(code).unwrap(), number(15.0));
}

#[test]
fn a_binding_in_a_function_shadows_the_outer_one() {
    let code = "x = 1\nfuncion f(a):\n  x = a\n  retornar x\nf(7) + x";
    assert_eq!(execute_vader_code(code).unwrap(), number(8.0));
}

#[test]
fn or_does_not_evaluate_its_right_side_when_the_left_holds() {
    assert_eq!(
        execute_vader_code("verdadero or no_existe(1)").unwrap(),
        VaderValue::Boolean(true)
    );
    assert_eq!(
        execute_vader_code("falso and no_existe(1)").unwrap(),
        VaderValue::Boolean(false)
    );
    let program =
        parse_code("funcion marca(x):\n  decir x\n  retornar x\nverdadero or marca(\"no\")")
            .unwrap();
    let mut interpreter = VaderInterpreter::new();
    let mut driver = Driver::new();
    driver.run(&mut interpreter, program).unwrap();
    assert!(driver.printed.is_empty());
    assert_eq!(
        run_error("falso or no_existe(1)"),
        RuntimeError::UndefinedFunction("no_existe".to_string())
    );
}

#[test]
fn logical_operators_give_booleans() {
    assert_eq!(execute_vader_code("1 and \"x\"").unwrap(), VaderValue::Boolean(true));
    assert_eq!(execute_vader_code("0 or \"\"").unwrap(), VaderValue::Boolean(false));
    assert_eq!(execute_vader_code("no 0").unwrap(), VaderValue::Boolean(true));
    assert_eq!(execute_vader_code("not 3").unwrap(), VaderValue::Boolean(false));
}

fn for_over(range: VaderValue) -> (Vec<String>, VaderValue) {
    let body = vec![AstNode::FunctionCall {
        name: "decir".to_string(),
        args: vec![AstNode::Variable { name: "i".to_string() }],
    }];
    let node = AstNode::For {
        variable: "i".to_string(),
        iterable: Box::new(AstNode::Literal { value: range }),
        body,
    };
    let mut interpreter = VaderInterpreter::new();
    let mut driver = Driver::new();
    let result = driver.run(&mut interpreter, vec![node]).unwrap();
    (driver.printed, result)
}

#[test]
fn for_visits_each_value_of_a_range() {
    let (seen, last) = for_over(VaderValue::range_with_step(0, 10, 3));
    assert_eq!(seen, vec!["0", "3", "6", "9"]);
    assert_eq!(last, text("9"));
    let (seen, _) = for_over(VaderValue::range_with_step(10, 0, -4));
    assert_eq!(seen, vec!["10", "6", "2"]);
    let (seen, last) = for_over(VaderValue::range_with_step(5, 0, 1));
    assert!(seen.is_empty());
    assert_eq!(last, VaderValue::Null);
    let (seen, _) = for_over(VaderValue::range_with_step(0, 5, -1));
    assert!(seen.is_empty());
    let (seen, _) = for_over(VaderValue::range(2, 5));
    assert_eq!(seen, vec!["2", "3", "4"]);
    let (seen, _) = for_over(VaderValue::range_with_step(i64::MAX - 1, i64::MAX, 5));
    assert_eq!(seen.len(), 1);
    let (seen, _) = for_over(VaderValue::Range { start: 0, end: 5, step: 0 });
    assert!(seen.is_empty());
}

#[test]
fn for_visits_each_item_of_a_list() {
    let code = "total = 0\npara x en [1, 2, 3]: total = total + x\ntotal";
    assert_eq!(execute_vader_code(code).unwrap(), number(6.0));
    let code = "total = 0\nfor x in [4, 5]:\n  total = total + x\ntotal";
    assert_eq!(execute_vader_code(code).unwrap(), number(9.0));
}

#[test]
fn for_refuses_what_is_no_list_and_no_range() {
    assert_eq!(
        run_error("para c en \"abc\": decir c"),
        RuntimeError::TypeError("Objeto no iterable".to_string())
    );
}

#[test]
fn return_ends_the_loops_around_it() {
    let code = "funcion primero(lista):\n  para x en lista: retornar x\n  retornar 0\nprimero([7, 8])";
    assert_eq!(execute_vader_code(code).unwrap(), number(7.0));
    let code = "funcion f(n):\n  mientras verdadero:\n    retornar n\nf(3)";
    assert_eq!(execute_vader_code(code).unwrap(), number(3.0));
}

#[test]
fn a_return_at_the_top_ends_the_program() {
    assert_eq!(execute_vader_code("retornar 5\n6").unwrap(), number(5.0));
    assert_eq!(execute_vader_code("retornar\n6").unwrap(), VaderValue::Null);
}

#[test]
fn an_empty_program_is_null() {
    assert_eq!(execute_vader_code("").unwrap(), VaderValue::Null);
    assert_eq!(execute_vader_code("\n\n// nada\n").unwrap(), VaderValue::Null);
}

#[test]
fn if_without_else_is_null_when_the_condition_fails() {
    assert_eq!(execute_vader_code("si falso:\n  1").unwrap(), VaderValue::Null);
}

#[test]
fn while_gives_the_value_of_its_last_round() {
    assert_eq!(execute_vader_code("mientras falso:\n  1").unwrap(), VaderValue::Null);
    let code = "n = 0\nmientras n < 3:\n  n = n + 1";
    assert_eq!(execute_vader_code(code).unwrap(), number(3.0));
}

#[test]
fn a_function_definition_is_a_function_value() {
    let result = execute_vader_code("funcion f(a, b):\n  retornar a").unwrap();
    match result {
        VaderValue::Function { name, params, body } => {
            assert_eq!(name, "f");
            assert_eq!(params, vec!["a".to_string(), "b".to_string()]);
            assert_eq!(body.len(), 1);
        }
        other => panic!("expected a function, got {:?}", other),
    }
}

#[test]
fn a_call_with_the_wrong_number_of_arguments_fails() {
    let code = "funcion f(a, b):\n  retornar a\nf(1)";
    assert_eq!(run_error(code), RuntimeError::WrongArgumentCount { expected: 2, actual: 1 });
    let code = "funcion f(a):\n  retornar a\nf(1, 2)";
    assert_eq!(run_error(code), RuntimeError::WrongArgumentCount { expected: 1, actual: 2 });
}

#[test]
fn each_runtime_error_has_an_input() {
    assert_eq!(run_error("z"), RuntimeError::UndefinedVariable("z".to_string()));
    assert_eq!(run_error("g(1)"), RuntimeError::UndefinedFunction("g".to_string()));
    assert_eq!(run_error("x = 3\nx(1)"), RuntimeError::UndefinedFunction("x".to_string()));
    assert_eq!(run_error("1 / 0"), RuntimeError::DivisionByZero);
    assert_eq!(run_error("1 % 0"), RuntimeError::DivisionByZero);
    assert_eq!(run_error("[1, 2][5]"), RuntimeError::IndexOutOfRange);
    assert_eq!(run_error("\"ab\"[2]"), RuntimeError::IndexOutOfRange);
    assert_eq!(run_error("[1].nada"), RuntimeError::MemberNotFound("nada".to_string()));
    assert_eq!(
        run_error("len(5)"),
        RuntimeError::BuiltinError(
            "len() solo funciona con texto, listas, diccionarios u objetos".to_string()
        )
    );
    assert_eq!(
        run_error("1 + verdadero"),
        RuntimeError::TypeError(
            "Operación no soportada: sumar en tipo numero y booleano".to_string()
        )
    );
    assert_eq!(
        run_error("-\"a\""),
        RuntimeError::TypeError("Operación no soportada: negar en tipo texto".to_string())
    );
    assert_eq!(
        run_error("\"a\" < 1"),
        RuntimeError::TypeError(
            "Operación no soportada: comparar en tipo texto y numero".to_string()
        )
    );
    let power = AstNode::BinaryOp {
        left: Box::new(AstNode::Literal { value: number(2.0) }),
        operator: "**".to_string(),
        right: Box::new(AstNode::Literal { value: number(3.0) }),
    };
    let mut interpreter = VaderInterpreter::new();
    assert_eq!(
        Driver::new().run(&mut interpreter, vec![power]).unwrap_err(),
        RuntimeError::UnsupportedOperation("**".to_string())
    );
    let misplaced = AstNode::UnaryOp {
        operator: "-".to_string(),
        operand: Box::new(AstNode::Block { statements: vec![] }),
    };
    assert_eq!(
        Driver::new().run(&mut interpreter, vec![misplaced]).unwrap_err(),
        RuntimeError::InvalidExpression
    );
    let dict = AstNode::Index {
        object: Box::new(AstNode::Dict {
            pairs: vec![(
                AstNode::Literal { value: text("a") },
                AstNode::Literal { value: number(1.0) },
            )],
        }),
        index: Box::new(AstNode::Literal { value: text("b") }),
    };
    assert_eq!(
        Driver::new().run(&mut interpreter, vec![dict]).unwrap_err(),
        RuntimeError::KeyError("b".to_string())
    );
}

#[test]
fn runtime_errors_have_their_diagnostics() {
    assert_eq!(
        RuntimeError::UndefinedVariable("x".to_string()).message(),
        "Variable no definida: x"
    );
    assert_eq!(
        RuntimeError::UndefinedFunction("f".to_string()).message(),
        "Función no definida: f"
    );
    assert_eq!(RuntimeError::TypeError("t".to_string()).message(), "Error de tipo: t");
    assert_eq!(
        RuntimeError::UnsupportedOperation("^".to_string()).message(),
        "Operación no soportada: ^"
    );
    assert_eq!(RuntimeError::InvalidExpression.message(), "Expresión inválida");
    assert_eq!(
        RuntimeError::BuiltinError("b".to_string()).message(),
        "Error en función built-in: b"
    );
    assert_eq!(RuntimeError::DivisionByZero.message(), "División por cero");
    assert_eq!(RuntimeError::IndexOutOfRange.message(), "Índice fuera de rango");
    assert_eq!(RuntimeError::KeyError("k".to_string()).message(), "Clave no encontrada: k");
    assert_eq!(
        RuntimeError::WrongArgumentCount { expected: 2, actual: 10 }.message(),
        "Número incorrecto de argumentos: esperados 2, recibidos 10"
    );
    assert_eq!(
        RuntimeError::MemberNotFound("m".to_string()).message(),
        "Miembro no encontrado: m"
    );
}

#[test]
fn a_dictionary_keeps_the_last_value_of_a_key() {
    let dict = AstNode::Dict {
        pairs: vec![
            (AstNode::Literal { value: text("a") }, AstNode::Literal { value: number(1.0) }),
            (AstNode::Literal { value: number(2.0) }, AstNode::Literal { value: number(2.0) }),
            (AstNode::Literal { value: number(2.5) }, AstNode::Literal { value: number(3.0) }),
            (AstNode::Literal { value: text("a") }, AstNode::Literal { value: number(4.0) }),
        ],
    };
    let mut interpreter = VaderInterpreter::new();
    let result = Driver::new().run(&mut interpreter, vec![dict]).unwrap();
    assert_eq!(
        result,
        VaderValue::Dict(vec![
            ("a".to_string(), number(4.0)),
            ("2".to_string(), number(2.0)),
            ("2.5".to_string(), number(3.0)),
        ])
    );
}

#[test]
fn members_and_indexes_are_read() {
    assert_eq!(execute_vader_code("[10, 20, 30][1]").unwrap(), number(20.0));
    assert_eq!(execute_vader_code("\"hola\"[1]").unwrap(), text("o"));
    assert_eq!(execute_vader_code("[1, 2, 3].longitud").unwrap(), number(3.0));
    assert_eq!(execute_vader_code("\"día\".length").unwrap(), number(3.0));
    assert_eq!(execute_vader_code("[[1, 2], [3]][0][1]").unwrap(), number(2.0));
}

#[test]
fn arguments_are_evaluated_from_the_left() {
    let program =
        parse_code("funcion marca(x):\n  decir x\n  retornar x\npush([marca(\"a\")], marca(\"b\"))")
            .unwrap();
    let mut interpreter = VaderInterpreter::new();
    let mut driver = Driver::new();
    let result = driver.run(&mut interpreter, program).unwrap();
    assert_eq!(driver.printed, vec!["a".to_string(), "b".to_string()]);
    assert_eq!(result, VaderValue::List(vec![text("a"), text("b")]));
}

#[test]
fn numbers_are_equal_within_the_machine_epsilon() {
    assert_eq!(execute_vader_code("0.1 + 0.2 == 0.3").unwrap(), VaderValue::Boolean(true));
    assert_eq!(execute_vader_code("0.1 + 0.2 != 0.3").unwrap(), VaderValue::Boolean(false));
    assert_eq!(execute_vader_code("1 == 2").unwrap(), VaderValue::Boolean(false));
    assert_eq!(execute_vader_code("1 != 2").unwrap(), VaderValue::Boolean(true));
    assert_eq!(execute_vader_code("1 == \"1\"").unwrap(), VaderValue::Boolean(false));
    assert_eq!(execute_vader_code("\"a\" == \"a\"").unwrap(), VaderValue::Boolean(true));
    assert_eq!(execute_vader_code("nulo == null").unwrap(), VaderValue::Boolean(true));
}

#[test]
fn the_same_program_has_the_same_result() {
    let code = "x = 3\nfuncion f(a):\n  retornar a * x\nf(4) + f(5)";
    let first = execute_vader_code(code).unwrap();
    let second = execute_vader_code(code).unwrap();
    assert_eq!(first, second);
    assert_eq!(first, number(27.0));
}

#[test]
fn a_step_without_the_answer_that_is_due_ends_the_program() {
    let program = parse_code("1 + 2").unwrap();
    let mut interpreter = VaderInterpreter::new();
    let mut action = interpreter.interpret(program);
    loop {
        action = match action {
            Action::Continue => interpreter.resume(None),
            Action::Request(_) => break,
            Action::Finished(result) => panic!("finished early: {:?}", result),
        };
    }
    assert_eq!(
        interpreter.resume(None),
        Action::Finished(Err(RuntimeError::BuiltinError("Falta la respuesta".to_string())))
    );
    assert_eq!(interpreter.resume(None), Action::Finished(Ok(VaderValue::Null)));
}

#[test]
fn an_answer_of_the_wrong_kind_ends_the_program() {
    let program = parse_code("1 + 2").unwrap();
    let mut interpreter = VaderInterpreter::new();
    let mut action = interpreter.interpret(program);
    loop {
        action = match action {
            Action::Continue => interpreter.resume(None),
            Action::Request(_) => break,
            Action::Finished(result) => panic!("finished early: {:?}", result),
        };
    }
    assert_eq!(
        interpreter.resume(Some(Answer::Text("3".to_string()))),
        Action::Finished(Err(RuntimeError::BuiltinError("Respuesta inesperada".to_string())))
    );
}

#[test]
fn the_evaluator_keeps_its_bindings_between_programs() {
    let mut interpreter = VaderInterpreter::new();
    let mut driver = Driver::new();
    driver.run(&mut interpreter, parse_code("x = 5").unwrap()).unwrap();
    assert!(driver.run(&mut interpreter, parse_code("y + 1").unwrap()).is_err());
    assert_eq!(
        driver.run(&mut interpreter, parse_code("x + 1").unwrap()).unwrap(),
        number(6.0)
    );
}

#[test]
fn functions_call_themselves() {
    let code = "funcion fact(n):\n  si n <= 1:\n    retornar 1\n  sino:\n    retornar n * fact(n - 1)\nfact(5)";
    assert_eq!(execute_vader_code(code).unwrap(), number(120.0));
    let code = "funcion fib(n):\n  si n < 2:\n    retornar n\n  sino:\n    retornar fib(n - 1) + fib(n - 2)\nfib(10)";
    assert_eq!(execute_vader_code(code).unwrap(), number(55.0));
}

#[test]
fn a_block_takes_the_statements_that_follow_it() {
    let code = "funcion f(n):\n  si n <= 1:\n    retornar 1\n  retornar 2\nf(5)";
    assert_eq!(execute_vader_code(code).unwrap(), VaderValue::Null);
    let code = "funcion f(n):\n  si n <= 1:\n    retornar 1\n  retornar 2\nf(1)";
    assert_eq!(execute_vader_code(code).unwrap(), number(1.0));
}

#[test]
fn a_function_keyword_ends_the_block_before_it() {
    let code = "funcion fuera(a):\n  funcion dentro(b):\n    retornar b * 2\ndentro(4)";
    assert_eq!(execute_vader_code(code).unwrap(), number(8.0));
    assert_eq!(execute_vader_code(&format!("{}\nfuera(1)", code)).unwrap(), VaderValue::Null);
}

#[test]
fn arithmetic_follows_the_machine() {
    assert_eq!(execute_vader_code("7 / 2").unwrap(), number(3.5));
    assert_eq!(execute_vader_code("7 % 4").unwrap(), number(3.0));
    assert_eq!(execute_vader_code("-2 * 3").unwrap(), number(-6.0));
    assert_eq!(execute_vader_code("2 - -3").unwrap(), number(5.0));
    assert_eq!(execute_vader_code("1.5 + 2.25").unwrap(), number(3.75));
    assert_eq!(execute_vader_code("0.1 + 0.2").unwrap(), number(0.1 + 0.2));
    assert_eq!(execute_vader_code("1 + 2 * 3 - 4 / 2").unwrap(), number(5.0));
    assert_eq!(execute_vader_code("pow(2, 8) + sqrt(9) + abs(-1)").unwrap(), number(260.0));
    assert_eq!(execute_vader_code("\"ab\" * 3").unwrap(), text("ababab"));
    assert_eq!(execute_vader_code("no 1 == 2").unwrap(), VaderValue::Boolean(false));
    assert_eq!(execute_vader_code("no (1 == 2)").unwrap(), VaderValue::Boolean(true));
    assert_eq!(execute_vader_code("1 < 2 == verdadero").unwrap(), VaderValue::Boolean(true));
    assert_eq!(execute_vader_code("3 > 2 and 2 >= 2 and 1 <= 1").unwrap(), VaderValue::Boolean(true));
    assert_eq!(execute_vader_code("\"a\" < \"b\"").unwrap(), VaderValue::Boolean(true));
}

#[test]
fn numbers_with_a_fractional_part_are_written_by_the_driver() {
    let program = parse_code("decir 7 / 2").unwrap();
    let mut interpreter = VaderInterpreter::new();
    let mut driver = Driver::new();
    assert_eq!(driver.run(&mut interpreter, program).unwrap(), text("3.5"));
    assert_eq!(driver.printed, vec!["3.5".to_string()]);
    assert_eq!(execute_vader_code("\"x = \" + 0.25").unwrap(), text("x = 0.25"));
    assert_eq!(execute_vader_code("\"x = \" + [1, 2.5]").unwrap(), text("x = [1, 2.5]"));
    assert_eq!(execute_vader_code("upper(\"a\" + 1.5)").unwrap(), text("A1.5"));
    assert_eq!(execute_vader_code("\"\" + 10 / 4 + \"!\"").unwrap(), text("2.5!"));
}

#[test]
fn builtins_are_called_from_programs() {
    assert_eq!(execute_vader_code("tipo(1)").unwrap(), text("numero"));
    assert_eq!(execute_vader_code("type(\"a\")").unwrap(), text("texto"));
    assert_eq!(execute_vader_code("tipo([])").unwrap(), text("lista"));
    assert_eq!(execute_vader_code("tipo(nulo)").unwrap(), text("nulo"));
    assert_eq!(execute_vader_code("tipo(verdadero)").unwrap(), text("booleano"));
    assert_eq!(execute_vader_code("longitud(\"día\")").unwrap(), number(3.0));
    assert_eq!(execute_vader_code("mayusculas(\"hola\")").unwrap(), text("HOLA"));
    assert_eq!(execute_vader_code("minusculas(\"HOLA\")").unwrap(), text("hola"));
    assert_eq!(
        execute_vader_code("split(\"a-b\", \"-\")").unwrap(),
        VaderValue::List(vec![text("a"), text("b")])
    );
    assert_eq!(execute_vader_code("pop(push(reverse([1, 2]), 9))").unwrap(), number(9.0));
    assert_eq!(execute_vader_code("random()").unwrap(), number(0.25));
    assert_eq!(execute_vader_code("time()").unwrap(), number(1700000000.0));
    assert_eq!(execute_vader_code("write_file(\"a\", 1)").unwrap(), VaderValue::Boolean(true));
    assert_eq!(
        run_error("leer_archivo(\"nada.txt\")"),
        RuntimeError::BuiltinError(
            "Error leyendo archivo 'nada.txt': no existe nada.txt".to_string()
        )
    );
    assert_eq!(
        run_error("sqrt(0 - 4)"),
        RuntimeError::BuiltinError("sqrt() no puede calcular raíz de número negativo".to_string())
    );
}

#[test]
fn input_reads_a_line() {
    let program = parse_code("nombre = leer(\"¿Nombre? \")\n\"Hola \" + nombre").unwrap();
    let mut interpreter = VaderInterpreter::new();
    let mut driver = Driver::new();
    driver.lines = vec!["Ana\n".to_string()];
    assert_eq!(driver.run(&mut interpreter, program).unwrap(), text("Hola Ana"));
    assert_eq!(driver.printed, vec!["¿Nombre? ".to_string()]);
    assert_eq!(
        driver.run(&mut interpreter, parse_code("input()").unwrap()).unwrap_err(),
        RuntimeError::BuiltinError("fin de la entrada".to_string())
    );
}

#[test]
fn exit_asks_the_driver_to_end_the_process() {
    let program = parse_code("x = 1\nsalir(3)\nx = 2").unwrap();
    let mut interpreter = VaderInterpreter::new();
    let mut action = interpreter.execute(program);
    loop {
        action = match action {
            Action::Continue => interpreter.resume(None),
            Action::Request(request) => {
                assert_eq!(request, Request::Exit { code: 3 });
                break;
            }
            Action::Finished(result) => panic!("finished: {:?}", result),
        };
    }
    assert_eq!(interpreter.environment().get("x"), Some(number(1.0)));
}

#[test]
fn print_and_decir_are_read_without_parentheses() {
    let program = parse_code("x = 2\ndecir x * 3\nprint \"fin\"").unwrap();
    let mut interpreter = VaderInterpreter::new();
    let mut driver = Driver::new();
    assert_eq!(driver.run(&mut interpreter, program).unwrap(), text("fin"));
    assert_eq!(driver.printed, vec!["6".to_string(), "fin".to_string()]);
}

#[test]
fn a_loop_prints_each_round() {
    let program = parse_code("i = 0\nmientras i < 3:\n  decir i\n  i = i + 1").unwrap();
    let mut interpreter = VaderInterpreter::new();
    let mut driver = Driver::new();
    assert_eq!(driver.run(&mut interpreter, program).unwrap(), number(3.0));
    assert_eq!(driver.printed, vec!["0", "1", "2"]);
}

#[test]
fn test_boolean_operations() {
    let code = r#"
        a = verdadero
        b = falso
        a y no b
        "#;
    let result = execute_vader_code(code);

    assert_eq!(result, Err("Variable no definida: y".to_string()));
}

#[test]
fn test_memory_intensive_operations() {
    let code = r#"
        a1 = 1; a2 = 2; a3 = 3; a4 = 4; a5 = 5
        b1 = 10; b2 = 20; b3 = 30; b4 = 40; b5 = 50
        c1 = 100; c2 = 200; c3 = 300; c4 = 400; c5 = 500
        
        resultado = a1 + a2 + a3 + a4 + a5 + 
                   b1 + b2 + b3 + b4 + b5 + 
                   c1 + c2 + c3 + c4 + c5
        resultado
        "#;

    let start = Instant::now();
    let result = execute_vader_code(code);
    let duration = start.elapsed();

    println!("Operaciones intensivas en memoria: {:?}", duration);

    assert_eq!(result, Err("Token inesperado: ; at 2:15".to_string()));
}

#[test]
fn an_index_is_an_integer_from_zero_on() {
    assert_eq!(run_error("[1, 2, 3][0 - 1]"), RuntimeError::IndexOutOfRange);
    assert_eq!(run_error("\"abc\"[0 - 1]"), RuntimeError::IndexOutOfRange);
    assert_eq!(run_error("[1, 2, 3][3]"), RuntimeError::IndexOutOfRange);
    assert_eq!(
        run_error("[1, 2, 3][2.9]"),
        RuntimeError::TypeError("Tipo incompatible: esperado entero, encontrado numero".to_string())
    );
    assert_eq!(execute_vader_code("[1, 2, 3][2]").unwrap(), number(3.0));
    assert_eq!(execute_vader_code("[1, 2, 3][4 / 2]").unwrap(), number(3.0));
}

fn counting_program(start: i64, end: i64, step: i64) -> Vec<AstNode> {
    let n = || AstNode::Variable { name: "n".to_string() };
    vec![
        AstNode::Assignment {
            name: "n".to_string(),
            value: Box::new(AstNode::Literal { value: number(0.0) }),
        },
        AstNode::For {
            variable: "i".to_string(),
            iterable: Box::new(AstNode::Literal {
                value: VaderValue::Range { start, end, step },
            }),
            body: vec![AstNode::Assignment {
                name: "n".to_string(),
                value: Box::new(AstNode::BinaryOp {
                    left: Box::new(n()),
                    operator: "+".to_string(),
                    right: Box::new(AstNode::Literal { value: number(1.0) }),
                }),
            }],
        },
        n(),
    ]
}

#[test]
fn a_loop_over_a_range_counts_its_rounds() {
    for (start, end, step, rounds) in [
        (0i64, 10i64, 1i64, 10.0),
        (0, 10, 3, 4.0),
        (2, 11, 4, 3.0),
        (-5, 5, 5, 2.0),
        (10, 0, -1, 10.0),
        (10, 0, -3, 4.0),
        (7, -8, -5, 3.0),
        (0, 0, 1, 0.0),
        (5, 0, 1, 0.0),
        (0, 5, -1, 0.0),
        (3, 3, -2, 0.0),
    ] {
        let mut interpreter = VaderInterpreter::new();
        let mut driver = Driver::new();
        let result = driver.run(&mut interpreter, counting_program(start, end, step)).unwrap();
        assert_eq!(result, number(rounds), "{} {} {}", start, end, step);
        assert_eq!(driver.requests as f64, rounds);
    }
}

#[test]
fn a_call_leaves_the_names_of_its_caller_as_they_were() {
    let code = "x = 1\ny = 2\nfuncion f(a):\n  x = 10\n  z = 3\n  retornar a + x + z\nf(5)";
    let program = parse_code(code).unwrap();
    let mut interpreter = VaderInterpreter::new();
    assert_eq!(Driver::new().run(&mut interpreter, program).unwrap(), number(18.0));
    assert_eq!(interpreter.environment().get("x"), Some(number(1.0)));
    assert_eq!(interpreter.environment().get("y"), Some(number(2.0)));
    assert_eq!(interpreter.environment().get("z"), None);
    assert_eq!(interpreter.environment().get("a"), None);
    assert_eq!(
        Driver::new().run(&mut interpreter, parse_code("z").unwrap()).unwrap_err(),
        RuntimeError::UndefinedVariable("z".to_string())
    );
}
