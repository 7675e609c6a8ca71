use gearwork::bytecode::BytecodeBuilder;
use gearwork::opcode::Opcode;
use gearwork::value::Stackable;
use gearwork::vm::{Code, VM};
use gearwork::Loader;

const MAGIC: [u8; 8] = [0x47, 0x45, 0x41, 0x52, 0x57, 0x4f, 0x52, 0x4b];

#[test]
fn image_bytes_are_exactly_the_wire_format() {
    let mut bytecode_builder = BytecodeBuilder::new();
    let mut instruction_builder = bytecode_builder.visit_code();
    instruction_builder.visit_ldc(Stackable::Int(3));
    instruction_builder.visit_store(7);
    instruction_builder.visit_return();
    instruction_builder.visit_end(&mut bytecode_builder);
    let bytes = bytecode_builder.visit_end();

    let mut expected = MAGIC.to_vec();
    expected.extend_from_slice(&[0, 0, 0, 1]); // one constant
    expected.push(0x00); // Int tag
    expected.extend_from_slice(&[0, 0, 0, 3]);
    expected.extend_from_slice(&[0, 0, 0, 3]); // three instructions
    expected.push(0x00); // Ldc
    expected.extend_from_slice(&[0, 0, 0, 0]);
    expected.push(0x09); // Store
    expected.extend_from_slice(&[0, 7]);
    expected.push(0x0e); // Return
    assert_eq!(bytes, expected);
}

#[test]
fn equal_constants_intern_to_one_entry() {
    let mut bytecode_builder = BytecodeBuilder::new();
    let mut instruction_builder = bytecode_builder.visit_code();
    instruction_builder.visit_ldc(Stackable::Int(3));
    instruction_builder.visit_ldc(Stackable::Int(3));
    instruction_builder.visit_add();
    instruction_builder.visit_dump();
    instruction_builder.visit_end(&mut bytecode_builder);
    let bytes = bytecode_builder.visit_end();

    let mut expected = MAGIC.to_vec();
    expected.extend_from_slice(&[0, 0, 0, 1]); // a single interned constant
    expected.push(0x00);
    expected.extend_from_slice(&[0, 0, 0, 3]);
    expected.extend_from_slice(&[0, 0, 0, 4]);
    expected.push(0x00); // Ldc 0
    expected.extend_from_slice(&[0, 0, 0, 0]);
    expected.push(0x00); // Ldc 0 again: the same index
    expected.extend_from_slice(&[0, 0, 0, 0]);
    expected.push(0x02); // Add
    expected.push(0x01); // Dump
    assert_eq!(bytes, expected);

    let vm = Loader::new(&bytes).load().unwrap();
    let (_stack, output) = vm.execute().unwrap();
    assert_eq!(output, vec!["6".to_string()]);
}

#[test]
fn function_names_intern_among_string_entries() {
    let mut bytecode_builder = BytecodeBuilder::new();
    let mut instruction_builder = bytecode_builder.visit_code();
    instruction_builder.visit_func("f", 0);
    instruction_builder.visit_return();
    instruction_builder.visit_invoke("f", 0).unwrap();
    instruction_builder.visit_end(&mut bytecode_builder);
    let bytes = bytecode_builder.visit_end();

    let mut expected = MAGIC.to_vec();
    expected.extend_from_slice(&[0, 0, 0, 1]); // one constant: the name
    expected.push(0x04); // String tag
    expected.extend_from_slice(&[0, 0, 0, 0, 0, 0, 0, 1]); // length 1
    expected.push(b'f');
    expected.extend_from_slice(&[0, 0, 0, 3]);
    expected.push(0x0d); // Func, name index 0, no parameters
    expected.extend_from_slice(&[0, 0, 0, 0, 0]);
    expected.push(0x0e); // Return
    expected.push(0x0f); // Invoke, same name index
    expected.extend_from_slice(&[0, 0, 0, 0, 0]);
    assert_eq!(bytes, expected);
}

#[test]
fn an_unbound_label_patches_to_zero() {
    let mut bytecode_builder = BytecodeBuilder::new();
    let mut instruction_builder = bytecode_builder.visit_code();
    let never_bound = instruction_builder.make_label();
    instruction_builder.visit_goto(never_bound);
    instruction_builder.visit_end(&mut bytecode_builder);
    let bytes = bytecode_builder.visit_end();

    let mut expected = MAGIC.to_vec();
    expected.extend_from_slice(&[0, 0, 0, 0]);
    expected.extend_from_slice(&[0, 0, 0, 1]);
    expected.push(0x0b); // Goto 0
    expected.extend_from_slice(&[0, 0, 0, 0]);
    assert_eq!(bytes, expected);
}

#[test]
fn loading_an_emitted_image_behaves_like_the_direct_machine() {
    let mut bytecode_builder = BytecodeBuilder::new();
    let mut instruction_builder = bytecode_builder.visit_code();
    instruction_builder.visit_ldc(Stackable::Int(3));
    instruction_builder.visit_ldc(Stackable::Int(4));
    instruction_builder.visit_add();
    instruction_builder.visit_dump();
    instruction_builder.visit_end(&mut bytecode_builder);
    let bytes = bytecode_builder.visit_end();
    let loaded = Loader::new(&bytes).load().unwrap();
    let (_stack, loaded_output) = loaded.execute().unwrap();

    let direct = VM::new_vm(
        vec![Stackable::Int(3), Stackable::Int(4)],
        Code::new(vec![Opcode::Ldc(0), Opcode::Ldc(1), Opcode::Add, Opcode::Dump]),
    );
    let (_stack, direct_output) = direct.execute().unwrap();
    assert_eq!(loaded_output, direct_output);
}

#[test]
fn constant_pool_builder_writes_tagged_entries() {
    let mut bytecode_builder = BytecodeBuilder::new();
    let mut constant_builder = bytecode_builder.visit_constant_pool();
    constant_builder.visit_integer(1);
    constant_builder.visit_long(-2);
    constant_builder.visit_float(1.0f32.to_bits());
    constant_builder.visit_double(0.1f64.to_bits());
    constant_builder.visit_constant(&Stackable::String(String::from("ok")));
    constant_builder.visit_end(&mut bytecode_builder);
    let bytes = bytecode_builder.visit_end();

    let mut expected = MAGIC.to_vec();
    expected.extend_from_slice(&[0, 0, 0, 5]);
    expected.push(0x00);
    expected.extend_from_slice(&1i32.to_be_bytes());
    expected.push(0x01);
    expected.extend_from_slice(&(-2i64).to_be_bytes());
    expected.push(0x02);
    expected.extend_from_slice(&1.0f32.to_be_bytes());
    expected.push(0x03);
    expected.extend_from_slice(&0.1f64.to_be_bytes());
    expected.push(0x04);
    expected.extend_from_slice(&2u64.to_be_bytes());
    expected.extend_from_slice(b"ok");
    assert_eq!(bytes, expected);
}

#[test]
fn stackable_equality_is_structural() {
    assert!(Stackable::Int(1) == Stackable::Int(1));
    assert!(Stackable::Int(1) != Stackable::Long(1));
    assert!(Stackable::String(String::from("a")) == Stackable::String(String::from("a")));
    let nan = f32::NAN.to_bits();
    assert!(Stackable::Float(nan) == Stackable::Float(nan));
    assert!(Stackable::Double(0.0f64.to_bits()) != Stackable::Double((-0.0f64).to_bits()));
}
