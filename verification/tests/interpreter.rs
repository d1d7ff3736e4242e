use rlox::vm::{InterpretError, VM};

fn run_ok(source: &str) -> Vec<String> {
    let mut vm = VM::new();
    let r = vm.interpret(source);
    assert!(r.is_ok(), "diagnostics: {:?} errors: {:?}", vm.diagnostics(), vm.errors());
    vm.output().clone()
}

fn diags_of(source: &str) -> Vec<String> {
    let mut vm = VM::new();
    let r = vm.interpret(source);
    assert_eq!(r, Err(InterpretError::CompileError));
    vm.diagnostics().clone()
}

#[test]
fn print_term_precedence() {
    assert_eq!(run_ok("print 1 + 2 * 3;"), vec!["7"]);
}

#[test]
fn print_grouping_precedence() {
    assert_eq!(run_ok("print (1 + 2) * 3;"), vec!["9"]);
}

#[test]
fn print_string_concatenation() {
    assert_eq!(run_ok("print \"foo\" + \"bar\";"), vec!["foobar"]);
}

#[test]
fn print_not_operators() {
    assert_eq!(run_ok("print !nil; print !!1;"), vec!["true", "true"]);
}

#[test]
fn shadowing_across_scopes() {
    assert_eq!(run_ok("var a = 10; { var a = 20; print a; } print a;"), vec!["20", "10"]);
}

#[test]
fn global_define_and_assign() {
    assert_eq!(run_ok("var x; print x; x = 5; print x;"), vec!["nil", "5"]);
}

#[test]
fn comparisons_and_mixed_equality() {
    assert_eq!(run_ok("print 1 < 2; print 2 <= 2; print 1 == \"1\";"), vec![
        "true", "true", "false",
    ]);
}

#[test]
fn number_literal_roundtrip() {
    assert_eq!(run_ok("print 7;"), vec!["7"]);
    assert_eq!(run_ok("print 0.5;"), vec!["0.5"]);
    assert_eq!(run_ok("print 1.25;"), vec!["1.25"]);
}

#[test]
fn concatenation_yields_interned_value() {
    assert_eq!(run_ok("print (\"a\" + \"b\") == \"ab\";"), vec!["true"]);
    assert_eq!(run_ok("print (\"a\" + \"b\") == \"ac\";"), vec!["false"]);
}

#[test]
fn double_negation_is_identity() {
    assert_eq!(run_ok("print --7;"), vec!["7"]);
    assert_eq!(run_ok("print -(-1.5);"), vec!["1.5"]);
}

#[test]
fn falsiness_of_zero_and_empty_string() {
    assert_eq!(run_ok("print !0; print !\"\"; print !false;"), vec!["false", "false", "true"]);
}

#[test]
fn arithmetic_exact_values() {
    assert_eq!(run_ok("print 10 - 4; print 6 * 7; print 10 / 4; print 1 + 0.5;"), vec![
        "6", "42", "2.5", "1.5",
    ]);
}

#[test]
fn equality_operators() {
    assert_eq!(
        run_ok("print 1 == 1; print 1 != 1; print nil == nil; print true == false;"),
        vec!["true", "false", "true", "false"]
    );
}

#[test]
fn greater_comparisons() {
    assert_eq!(run_ok("print 3 > 2; print 2 >= 3; print 2 > 2;"), vec!["true", "false", "false"]);
}

#[test]
fn if_statement_takes_and_skips_branch() {
    assert_eq!(run_ok("if (true) print 1; print 2;"), vec!["1", "2"]);
    assert_eq!(run_ok("if (false) print 1; print 2;"), vec!["2"]);
    assert_eq!(run_ok("if (nil) print 1; print 2;"), vec!["2"]);
}

#[test]
fn locals_in_nested_scopes() {
    assert_eq!(
        run_ok("{ var a = 1; { var b = 2; print a + b; } print a; }"),
        vec!["3", "1"]
    );
}

#[test]
fn repl_state_persists_across_interprets() {
    let mut vm = VM::new();
    vm.interpret("var a = 1;").unwrap();
    vm.interpret("print a + 1;").unwrap();
    assert_eq!(vm.output().clone(), vec!["2"]);
}

#[test]
fn runtime_error_negate_string() {
    let mut vm = VM::new();
    let r = vm.interpret("print -\"x\";");
    assert_eq!(r, Err(InterpretError::RuntimeError));
    assert_eq!(vm.errors().clone(), vec!["Operand must be a number.", "[line 1] in script"]);
}

#[test]
fn runtime_error_add_mismatch() {
    let mut vm = VM::new();
    let r = vm.interpret("print 1 + \"x\";");
    assert_eq!(r, Err(InterpretError::RuntimeError));
    assert_eq!(vm.errors()[0], "Operands must be numbers.");

    let mut vm2 = VM::new();
    let r2 = vm2.interpret("print \"x\" + 1;");
    assert_eq!(r2, Err(InterpretError::RuntimeError));
    assert_eq!(vm2.errors()[0], "Operands must be strings.");
}

#[test]
fn runtime_error_undefined_variable() {
    let mut vm = VM::new();
    let r = vm.interpret("print x;");
    assert_eq!(r, Err(InterpretError::RuntimeError));
    assert_eq!(vm.errors().clone(), vec!["Undefined variable 'x'.", "[line 1] in script"]);

    let mut vm2 = VM::new();
    let r2 = vm2.interpret("x = 1;");
    assert_eq!(r2, Err(InterpretError::RuntimeError));
    assert_eq!(vm2.errors()[0], "Undefined variable 'x'.");
}

#[test]
fn error_unterminated_string_one_diagnostic() {
    let d = diags_of("\"abc");
    assert_eq!(d.len(), 1);
    assert_eq!(d[0], "[line 1] Error: Unterminated string.");
}

#[test]
fn error_stray_character_one_diagnostic() {
    let d = diags_of("@");
    assert_eq!(d.len(), 1);
    assert_eq!(d[0], "[line 1] Error: Unexpected character.");
}

#[test]
fn error_missing_semicolon_one_diagnostic() {
    let d = diags_of("print 1");
    assert_eq!(d.len(), 1);
    assert_eq!(d[0], "[line 1] Error at end: Expect ';' after value.");
}

#[test]
fn error_invalid_assignment_target() {
    let d = diags_of("a + b = 1;");
    assert_eq!(d.len(), 1);
    assert!(d[0].contains("Invalid assignment target."), "{:?}", d);
}

#[test]
fn error_same_scope_shadowing() {
    let d = diags_of("{ var a = 1; var a = 2; }");
    assert!(d[0].contains("Already a variable with this name in this scope."), "{:?}", d);
}

#[test]
fn error_self_referential_initializer() {
    let d = diags_of("var a = 1; { var a = a; }");
    assert!(
        d[0].contains("Can't read local variable in its own initializer."),
        "{:?}",
        d
    );
}

#[test]
fn error_too_many_constants() {
    let mut source = String::new();
    let mut i = 0;
    while i < 257 {
        source.push_str(&format!("print {};", i));
        i += 1;
    }
    let d = diags_of(&source);
    assert!(d[0].contains("Too many constants in one chunk."), "{:?}", d);
}

#[test]
fn expression_statement_discards_value() {
    assert_eq!(run_ok("1 + 2; print 9;"), vec!["9"]);
}

#[test]
fn print_booleans_and_nil() {
    assert_eq!(run_ok("print true; print false; print nil;"), vec!["true", "false", "nil"]);
}

#[test]
fn comments_are_skipped() {
    assert_eq!(run_ok("// nothing here\nprint 1; // trailing\n"), vec!["1"]);
}

#[test]
fn error_line_numbers_count_newlines() {
    let mut vm = VM::new();
    let r = vm.interpret("print 1;\nprint -\"x\";");
    assert_eq!(r, Err(InterpretError::RuntimeError));
    assert_eq!(vm.errors().clone(), vec!["Operand must be a number.", "[line 2] in script"]);
    assert_eq!(vm.output().clone(), vec!["1"]);
}

#[test]
fn new_string_interns_by_content() {
    let mut vm = VM::new();
    let a = vm.new_string("abc".to_string());
    let b = vm.new_string("abc".to_string());
    let c = vm.new_string("abd".to_string());
    assert_eq!(a, b);
    assert_ne!(a, c);
}

#[test]
fn nested_if_statements() {
    assert_eq!(run_ok("if (true) if (false) print 1; print 2;"), vec!["2"]);
    assert_eq!(run_ok("if (true) { print 1; print 2; } print 3;"), vec!["1", "2", "3"]);
    assert_eq!(run_ok("if (false) { print 1; print 2; } print 3;"), vec!["3"]);
}

#[test]
fn string_literal_equality_is_interned() {
    assert_eq!(run_ok("print \"a\" == \"a\"; print \"a\" == \"b\";"), vec!["true", "false"]);
}

#[test]
fn multiline_string_prints_with_newline() {
    assert_eq!(run_ok("print \"a\nb\";"), vec!["a\nb"]);
}

#[test]
fn diagnostic_on_second_line() {
    let d = diags_of("print 1;\n@");
    assert_eq!(d.len(), 1);
    assert_eq!(d[0], "[line 2] Error: Unexpected character.");
}

#[test]
fn locals_read_and_assign() {
    assert_eq!(run_ok("{ var a = 1; a = a + 2; print a; }"), vec!["3"]);
}

#[test]
fn global_redefinition_is_allowed() {
    assert_eq!(run_ok("var a = 1; var a = 2; print a;"), vec!["2"]);
}

#[test]
fn negation_flips_sign() {
    assert_eq!(run_ok("print -5; print -0.5;"), vec!["-5", "-0.5"]);
}

#[test]
fn numeric_equality_both_ways() {
    assert_eq!(run_ok("print 1 == 2; print 2 == 2; print 1 != 2;"), vec![
        "false", "true", "true",
    ]);
}

#[test]
fn less_comparisons() {
    assert_eq!(run_ok("print 2 < 1; print 2 < 2; print 1 <= 0;"), vec![
        "false", "false", "false",
    ]);
}

#[test]
fn number_rendering_is_roundtrippable_not_shortest() {
    // Fractions with no exact binary representation print with enough
    // digits to round-trip, which is more than the shortest form.
    assert_eq!(run_ok("print 0.1;"), vec!["0.10000000000000001"]);
}

#[test]
fn number_rendering_extreme_magnitudes_are_scientific() {
    assert_eq!(run_ok("print 100000;"), vec!["1.0E+5"]);
    assert_eq!(run_ok("print 0.00001;"), vec!["1.0000000000000001E-5"]);
}

#[test]
fn number_rendering_division_by_zero() {
    assert_eq!(run_ok("print 1 / 0; print -1 / 0;"), vec!["+Inf", "-Inf"]);
}
