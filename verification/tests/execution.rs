use gearwork::bytecode::BytecodeBuilder;
use gearwork::opcode::Opcode;
use gearwork::value::Stackable;
use gearwork::Loader;

/// Emit a program through a closure over the instruction builder, load
/// the image, execute it, and return the dumped lines.
fn run_program(
    build: impl FnOnce(&mut gearwork::bytecode::InstructionBuilder),
) -> Vec<String> {
    let mut bytecode_builder = BytecodeBuilder::new();
    let mut instruction_builder = bytecode_builder.visit_code();
    build(&mut instruction_builder);
    instruction_builder.visit_end(&mut bytecode_builder);
    let bytes = bytecode_builder.visit_end();
    let loader = Loader::new(&bytes);
    let vm = loader.load().unwrap();
    let (_stack, output) = vm.execute().unwrap();
    output
}

#[test]
fn const_add_dumps_seven() {
    let output = run_program(|ib| {
        ib.visit_ldc(Stackable::Int(3));
        ib.visit_ldc(Stackable::Int(4));
        ib.visit_add();
        ib.visit_dump();
        ib.visit_return();
    });
    assert_eq!(output, vec!["7".to_string()]);
}

#[test]
fn mixed_promotion_prints_double() {
    let output = run_program(|ib| {
        ib.visit_ldc(Stackable::Int(1));
        ib.visit_ldc(Stackable::Double(2.5f64.to_bits()));
        ib.visit_add();
        ib.visit_dump();
    });
    assert_eq!(output, vec!["3.5D".to_string()]);
}

#[test]
fn swap_dumps_in_swapped_order() {
    let output = run_program(|ib| {
        ib.visit_ldc(Stackable::Int(1));
        ib.visit_ldc(Stackable::Int(2));
        ib.visit_swp();
        ib.visit_dump();
        ib.visit_dump();
    });
    assert_eq!(output, vec!["1".to_string(), "2".to_string()]);
}

#[test]
fn dup_dumps_twice() {
    let output = run_program(|ib| {
        ib.visit_ldc(Stackable::Int(9));
        ib.visit_dup();
        ib.visit_dump();
        ib.visit_dump();
    });
    assert_eq!(output, vec!["9".to_string(), "9".to_string()]);
}

#[test]
fn locals_store_and_load() {
    let output = run_program(|ib| {
        ib.visit_ldc(Stackable::Long(42));
        ib.visit_store(0);
        ib.visit_load(0);
        ib.visit_dump();
    });
    assert_eq!(output, vec!["42L".to_string()]);
}

#[test]
fn forward_goto_skips_middle() {
    let output = run_program(|ib| {
        let skip = ib.make_label();
        ib.visit_ldc(Stackable::Int(1));
        ib.visit_dump();
        ib.visit_goto(skip);
        ib.visit_ldc(Stackable::Int(2));
        ib.visit_dump();
        ib.visit_label(skip);
        ib.visit_ldc(Stackable::Int(3));
        ib.visit_dump();
    });
    assert_eq!(output, vec!["1".to_string(), "3".to_string()]);
}

#[test]
fn backward_goto_with_labels() {
    // Jump to A, from there to B, fall through to C: the stored value is
    // dumped twice on the detour, once at the end.
    let output = run_program(|ib| {
        let label_a = ib.make_label();
        let label_b = ib.make_label();
        let label_c = ib.make_label();
        ib.visit_ldc(Stackable::Int(5));
        ib.visit_goto(label_a);
        ib.visit_label(label_b);
        ib.visit_store(0);
        ib.visit_load(0);
        ib.visit_dup();
        ib.visit_dump();
        ib.visit_goto(label_c);
        ib.visit_label(label_a);
        ib.visit_goto(label_b);
        ib.visit_label(label_c);
        ib.visit_dump();
    });
    assert_eq!(output, vec!["5".to_string(), "5".to_string()]);
}

#[test]
fn nested_function_call() {
    // a = 10; add(x) { mul(z) { return z * 90 } return mul(x + a) }
    // dump(add(10)) prints 1800.
    let output = run_program(|ib| {
        ib.visit_ldc(Stackable::Int(10));
        ib.visit_store(0);
        ib.visit_func("add", 1);
        ib.visit_func("mul", 1);
        ib.visit_ldc(Stackable::Int(90));
        ib.visit_mul();
        ib.visit_return();
        ib.visit_load(0);
        ib.visit_add();
        ib.visit_invoke("mul", 1).unwrap();
        ib.visit_return();
        ib.visit_ldc(Stackable::Int(10));
        ib.visit_invoke("add", 1).unwrap();
        ib.visit_dump();
    });
    assert_eq!(output, vec!["1800".to_string()]);
}

#[test]
fn function_body_does_not_run_in_defining_frame() {
    let output = run_program(|ib| {
        ib.visit_func("f", 0);
        ib.visit_ldc(Stackable::Int(99));
        ib.visit_dump();
        ib.visit_return();
        ib.visit_ldc(Stackable::Int(1));
        ib.visit_dump();
    });
    assert_eq!(output, vec!["1".to_string()]);
}

#[test]
fn long_and_int_promote_to_long() {
    let output = run_program(|ib| {
        ib.visit_ldc(Stackable::Long(5));
        ib.visit_ldc(Stackable::Int(2));
        ib.visit_add();
        ib.visit_dump();
    });
    assert_eq!(output, vec!["7L".to_string()]);
}

#[test]
fn float_dump_is_tagged() {
    let output = run_program(|ib| {
        ib.visit_ldc(Stackable::Float(1.5f32.to_bits()));
        ib.visit_dump();
    });
    assert_eq!(output, vec!["1.5F".to_string()]);
}

#[test]
fn string_constant_round_trips() {
    let output = run_program(|ib| {
        ib.visit_ldc(Stackable::String(String::from("POGGER")));
        ib.visit_dump();
    });
    assert_eq!(output, vec!["POGGER".to_string()]);
}

#[test]
fn subtraction_takes_top_minus_below() {
    // Push 10, push 3: Sub computes top - below = 3 - 10.
    let output = run_program(|ib| {
        ib.visit_ldc(Stackable::Int(10));
        ib.visit_ldc(Stackable::Int(3));
        ib.visit_sub();
        ib.visit_dump();
    });
    assert_eq!(output, vec!["-7".to_string()]);
}

#[test]
fn division_and_modulo() {
    let output = run_program(|ib| {
        ib.visit_ldc(Stackable::Int(3));
        ib.visit_ldc(Stackable::Int(13));
        ib.visit_div();
        ib.visit_dump();
        ib.visit_ldc(Stackable::Int(3));
        ib.visit_ldc(Stackable::Int(13));
        ib.visit_mod();
        ib.visit_dump();
    });
    assert_eq!(output, vec!["4".to_string(), "1".to_string()]);
}

#[test]
fn addition_of_doubles_is_commutative() {
    let one_way = run_program(|ib| {
        ib.visit_ldc(Stackable::Double(0.1f64.to_bits()));
        ib.visit_ldc(Stackable::Double(0.2f64.to_bits()));
        ib.visit_add();
        ib.visit_dump();
    });
    let other_way = run_program(|ib| {
        ib.visit_ldc(Stackable::Double(0.2f64.to_bits()));
        ib.visit_ldc(Stackable::Double(0.1f64.to_bits()));
        ib.visit_add();
        ib.visit_dump();
    });
    assert_eq!(one_way, other_way);
}

#[test]
fn multiplication_of_doubles_is_commutative() {
    let one_way = run_program(|ib| {
        ib.visit_ldc(Stackable::Double(1.7f64.to_bits()));
        ib.visit_ldc(Stackable::Double(3.9f64.to_bits()));
        ib.visit_mul();
        ib.visit_dump();
    });
    let other_way = run_program(|ib| {
        ib.visit_ldc(Stackable::Double(3.9f64.to_bits()));
        ib.visit_ldc(Stackable::Double(1.7f64.to_bits()));
        ib.visit_mul();
        ib.visit_dump();
    });
    assert_eq!(one_way, other_way);
}

#[test]
fn goto_exactly_past_the_end_terminates_cleanly() {
    let output = run_program(|ib| {
        ib.visit_ldc(Stackable::Int(8));
        ib.visit_dump();
        ib.visit_opcode(Opcode::Goto(3));
    });
    assert_eq!(output, vec!["8".to_string()]);
}

#[test]
fn empty_image_executes_as_no_op() {
    let output = run_program(|_ib| {});
    assert_eq!(output, Vec::<String>::new());
}

#[test]
fn nop_has_no_effect() {
    let output = run_program(|ib| {
        ib.visit_nop();
        ib.visit_ldc(Stackable::Int(2));
        ib.visit_nop();
        ib.visit_dump();
    });
    assert_eq!(output, vec!["2".to_string()]);
}

#[test]
fn float_addition_narrows_back_to_float() {
    let output = run_program(|ib| {
        ib.visit_ldc(Stackable::Float(1.5f32.to_bits()));
        ib.visit_ldc(Stackable::Float(2.25f32.to_bits()));
        ib.visit_add();
        ib.visit_dump();
    });
    assert_eq!(output, vec!["3.75F".to_string()]);
}
