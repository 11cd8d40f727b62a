//! The compiler to native code, of which only the frame exists: it knows
//! its level of optimization and the name of what it would write.
use vstd::prelude::*;
use crate::parser::AstNode;

verus! {

/// Why a compilation failed.
#[derive(Debug, Clone, PartialEq)]
pub enum CompileError {
    LlvmError(String),
    UnsupportedType(String),
    FunctionNotFound(String),
    OptimizationError(String),
}

pub enum CompileErrorView {
    LlvmError(Seq<char>),
    UnsupportedType(Seq<char>),
    FunctionNotFound(Seq<char>),
    OptimizationError(Seq<char>),
}

impl View for CompileError {
    type V = CompileErrorView;

    open spec fn view(&self) -> CompileErrorView {
        match self {
            CompileError::LlvmError(text) => CompileErrorView::LlvmError(text@),
            CompileError::UnsupportedType(text) => CompileErrorView::UnsupportedType(text@),
            CompileError::FunctionNotFound(text) => CompileErrorView::FunctionNotFound(text@),
            CompileError::OptimizationError(text) => CompileErrorView::OptimizationError(text@),
        }
    }
}

/// The one-line diagnostic of a compile error.
pub open spec fn compile_error_message(error: CompileErrorView) -> Seq<char> {
    match error {
        CompileErrorView::LlvmError(text) => "Error de compilación LLVM: "@ + text,
        CompileErrorView::UnsupportedType(text) => "Tipo no soportado para compilación: "@ + text,
        CompileErrorView::FunctionNotFound(text) => "Función no encontrada: "@ + text,
        CompileErrorView::OptimizationError(text) => "Error de optimización: "@ + text,
    }
}

impl CompileError {
    /// The one-line diagnostic of the error.
    pub fn message(&self) -> (text: String)
        ensures
            text@ == compile_error_message(self@),
    {
        let (head, tail) = match self {
            CompileError::LlvmError(text) => ("Error de compilación LLVM: ", text),
            CompileError::UnsupportedType(text) => ("Tipo no soportado para compilación: ", text),
            CompileError::FunctionNotFound(text) => ("Función no encontrada: ", text),
            CompileError::OptimizationError(text) => ("Error de optimización: ", text),
        };
        let mut text = String::from_str(head);
        text.append(tail.as_str());
        text
    }
}

/// What the compiler says of a level of optimization.
pub open spec fn optimization_note(level: u8) -> Seq<char> {
    if level == 0 {
        "Sin optimizaciones"@
    } else if level == 1 {
        "Optimizaciones básicas"@
    } else if level == 2 {
        "Optimizaciones estándar"@
    } else if level == 3 {
        "Optimizaciones agresivas"@
    } else {
        "Nivel de optimización no válido"@
    }
}

/// The compiler.
pub struct VaderCompiler {
    optimization_level: u8,
}

impl VaderCompiler {
    /// The level of optimization.
    pub closed spec fn level(&self) -> u8 {
        self.optimization_level
    }

    /// A compiler with the given level of optimization.
    pub fn new(optimization_level: u8) -> (compiler: Self)
        ensures
            compiler.level() == optimization_level,
    {
        Self { optimization_level }
    }

    /// The level of optimization.
    pub fn optimization_level(&self) -> (level: u8)
        ensures
            level == self.level(),
    {
        self.optimization_level
    }

    /// What the compiler says of its level of optimization.
    pub fn optimization_message(&self) -> (text: String)
        ensures
            text@ == optimization_note(self.level()),
    {
        if self.optimization_level == 0 {
            String::from_str("Sin optimizaciones")
        } else if self.optimization_level == 1 {
            String::from_str("Optimizaciones básicas")
        } else if self.optimization_level == 2 {
            String::from_str("Optimizaciones estándar")
        } else if self.optimization_level == 3 {
            String::from_str("Optimizaciones agresivas")
        } else {
            String::from_str("Nivel de optimización no válido")
        }
    }

    /// The name of the file that stands for the executable.
    pub fn artifact_name(output_name: &str) -> (name: String)
        ensures
            name@ == output_name@ + ".exe"@,
    {
        let mut name = String::from_str(output_name);
        name.append(".exe");
        name
    }

    /// What the file that stands for the executable holds.
    pub fn placeholder() -> (text: &'static str)
        ensures
            text@ == "VADER_EXECUTABLE_PLACEHOLDER"@,
    {
        "VADER_EXECUTABLE_PLACEHOLDER"
    }
}

/// The generator of LLVM code, which generates nothing yet.
pub struct LlvmCodegen {}

impl LlvmCodegen {
    pub fn new() -> (codegen: Self) {
        Self {  }
    }

    /// Accepts any tree and generates nothing.
    pub fn compile_ast(&mut self, _ast: &AstNode) -> (result: Result<(), String>)
        ensures
            result is Ok,
    {
        Ok(())
    }
}

} // verus!
