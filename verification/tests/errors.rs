use gearwork::bytecode::{BytecodeBuilder, EmitError};
use gearwork::loader::LoadError;
use gearwork::opcode::Opcode;
use gearwork::value::Stackable;
use gearwork::vm::{Code, Process, VmError, VM};
use gearwork::Loader;

fn emit(build: impl FnOnce(&mut gearwork::bytecode::InstructionBuilder)) -> Vec<u8> {
    let mut bytecode_builder = BytecodeBuilder::new();
    let mut instruction_builder = bytecode_builder.visit_code();
    build(&mut instruction_builder);
    instruction_builder.visit_end(&mut bytecode_builder);
    bytecode_builder.visit_end()
}

fn run_err(build: impl FnOnce(&mut gearwork::bytecode::InstructionBuilder)) -> VmError {
    let bytes = emit(build);
    let vm = Loader::new(&bytes).load().unwrap();
    vm.execute().unwrap_err()
}

#[test]
fn store_at_the_index_limit_succeeds() {
    let constants = vec![Stackable::Int(7)];
    let vm = VM::new_vm(constants, Code::new(Vec::new()));
    let mut process = Process::new_process(&vm, 0);
    process.ldc(0).unwrap();
    process.store(65535).unwrap();
    process.load(65535).unwrap();
}

#[test]
fn store_past_the_index_limit_fails() {
    let constants = vec![Stackable::Int(7)];
    let vm = VM::new_vm(constants, Code::new(Vec::new()));
    let mut process = Process::new_process(&vm, 0);
    process.ldc(0).unwrap();
    assert_eq!(process.store(65536), Err(VmError::LocalIndexTooLarge(65536)));
    assert_eq!(process.load(70000), Err(VmError::LocalIndexTooLarge(70000)));
}

#[test]
fn store_on_an_empty_stack_fails() {
    let vm = VM::new_vm(Vec::new(), Code::new(Vec::new()));
    let mut process = Process::new_process(&vm, 0);
    assert_eq!(process.store(0), Err(VmError::StackUnderflow));
}

#[test]
fn constant_index_out_of_range() {
    let vm = VM::new_vm(Vec::new(), Code::new(vec![Opcode::Ldc(0)]));
    assert_eq!(vm.execute().unwrap_err(), VmError::ConstantIndexOutOfRange(0));
}

#[test]
fn arithmetic_on_an_empty_stack_underflows() {
    let vm = VM::new_vm(Vec::new(), Code::new(vec![Opcode::Add]));
    assert_eq!(vm.execute().unwrap_err(), VmError::StackUnderflow);
}

#[test]
fn dump_on_an_empty_stack_underflows() {
    let vm = VM::new_vm(Vec::new(), Code::new(vec![Opcode::Dump]));
    assert_eq!(vm.execute().unwrap_err(), VmError::StackUnderflow);
}

#[test]
fn loading_a_missing_local_fails() {
    let vm = VM::new_vm(Vec::new(), Code::new(vec![Opcode::Load(0)]));
    assert_eq!(vm.execute().unwrap_err(), VmError::MissingLocal(0));
}

#[test]
fn string_operands_cannot_be_promoted() {
    let err = run_err(|ib| {
        ib.visit_ldc(Stackable::String(String::from("no math")));
        ib.visit_ldc(Stackable::Int(1));
        ib.visit_add();
    });
    assert_eq!(err, VmError::StringArithmetic);
}

#[test]
fn invoking_an_unregistered_signature_fails() {
    // The name is interned by a Func of one parameter; invoking it with
    // two parameters names an unknown signature at run time.
    let err = run_err(|ib| {
        ib.visit_func("f", 1);
        ib.visit_return();
        ib.visit_ldc(Stackable::Int(1));
        ib.visit_ldc(Stackable::Int(2));
        ib.visit_invoke("f", 2).unwrap();
    });
    assert_eq!(err, VmError::UnknownFunction(0, 2));
}

#[test]
fn emitter_refuses_an_undeclared_invoke() {
    let mut bytecode_builder = BytecodeBuilder::new();
    let mut instruction_builder = bytecode_builder.visit_code();
    let err = instruction_builder.visit_invoke("nowhere", 1).unwrap_err();
    match err {
        EmitError::UndeclaredFunction(name) => assert_eq!(name, "nowhere"),
    }
}

#[test]
fn a_backward_jump_exhausts_the_step_budget() {
    let vm = VM::new_vm(Vec::new(), Code::new(vec![Opcode::Goto(0)]));
    let process = Process::new_process(&vm, 0);
    assert_eq!(process.run(10).unwrap_err(), VmError::StepLimit);
}

#[test]
fn bad_magic_is_rejected() {
    let bytes = vec![0x47u8, 0x45, 0x41, 0x52, 0x57, 0x4f, 0x52, 0x4c, 0, 0, 0, 0];
    match Loader::new(&bytes).load().unwrap_err() {
        LoadError::BadMagic(observed) => assert_eq!(observed.len(), 8),
        other => panic!("expected a bad-magic fault, got {:?}", other),
    }
}

#[test]
fn short_input_is_rejected_as_bad_magic() {
    let bytes = vec![0x47u8, 0x45];
    match Loader::new(&bytes).load().unwrap_err() {
        LoadError::BadMagic(observed) => assert_eq!(observed, vec![0x47u8, 0x45]),
        other => panic!("expected a bad-magic fault, got {:?}", other),
    }
}

#[test]
fn truncated_counts_are_rejected() {
    let bytes = vec![0x47u8, 0x45, 0x41, 0x52, 0x57, 0x4f, 0x52, 0x4b, 0, 0];
    assert!(matches!(Loader::new(&bytes).load().unwrap_err(), LoadError::Truncated));
}

#[test]
fn unknown_constant_tag_is_rejected() {
    let mut bytes = vec![0x47u8, 0x45, 0x41, 0x52, 0x57, 0x4f, 0x52, 0x4b];
    bytes.extend_from_slice(&[0, 0, 0, 1]);
    bytes.push(0xff);
    assert!(matches!(Loader::new(&bytes).load().unwrap_err(), LoadError::UnknownTag(0xff)));
}

#[test]
fn unknown_opcode_is_rejected() {
    let mut bytes = vec![0x47u8, 0x45, 0x41, 0x52, 0x57, 0x4f, 0x52, 0x4b];
    bytes.extend_from_slice(&[0, 0, 0, 0]);
    bytes.extend_from_slice(&[0, 0, 0, 1]);
    bytes.push(0xff);
    assert!(matches!(Loader::new(&bytes).load().unwrap_err(), LoadError::UnknownOpcode(0xff)));
}

#[test]
fn invalid_utf8_in_a_string_entry_is_rejected() {
    let mut bytes = vec![0x47u8, 0x45, 0x41, 0x52, 0x57, 0x4f, 0x52, 0x4b];
    bytes.extend_from_slice(&[0, 0, 0, 1]);
    bytes.push(0x04);
    bytes.extend_from_slice(&[0, 0, 0, 0, 0, 0, 0, 1]);
    bytes.push(0xff);
    assert!(matches!(Loader::new(&bytes).load().unwrap_err(), LoadError::InvalidUtf8));
}

#[test]
fn truncated_constant_payload_is_rejected() {
    let mut bytes = vec![0x47u8, 0x45, 0x41, 0x52, 0x57, 0x4f, 0x52, 0x4b];
    bytes.extend_from_slice(&[0, 0, 0, 1]);
    bytes.push(0x00);
    bytes.extend_from_slice(&[0, 0]);
    assert!(matches!(Loader::new(&bytes).load().unwrap_err(), LoadError::Truncated));
}
