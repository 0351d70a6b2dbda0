use rox::chunk::{Chunk, Constant};
use rox::objects::ObjFunction;
use rox::op_code::OpCode;
use std::rc::Rc;

fn text(bytes: &[u8]) -> String {
    String::from_utf8_lossy(bytes).into_owned()
}

#[test]
fn test_new_chunk() {
    let chunk = Chunk::new();
    assert_eq!(chunk.code.len(), 0);
    assert_eq!(chunk.constants.len(), 0);
    assert_eq!(chunk.lines.len(), 0);
}

#[test]
fn test_write_to_chunk() {
    let mut chunk = Chunk::new();
    chunk.write_to_chunk(OpCode::Constant(1), 1);
    assert_eq!(chunk.code.len(), 1);
    assert_eq!(chunk.constants.len(), 0);
    assert_eq!(chunk.lines.len(), 1);
}

#[test]
fn test_push_constant() {
    let mut chunk = Chunk::new();
    let constant = Constant::Number(1.0f64.to_bits());
    let index = chunk.push_constant(constant);
    assert_eq!(chunk.constants.len(), 1);
    assert_eq!(index, 0);
}

#[test]
fn chunk_test_len() {
    let mut chunk = Chunk::new();
    chunk.write_to_chunk(OpCode::Constant(1), 1);
    assert_eq!(chunk.len(), 1);
}

#[test]
fn chunk_test_is_empty() {
    let mut chunk = Chunk::new();
    assert!(chunk.is_empty());
    chunk.write_to_chunk(OpCode::Constant(1), 1);
    assert!(!chunk.is_empty());
}

#[test]
fn test_push_instruction() {
    let mut chunk = Chunk::new();
    chunk.push_instruction(OpCode::Constant(1));
    assert_eq!(chunk.code.len(), 1);
}

#[test]
fn test_push_line() {
    let mut chunk = Chunk::new();
    chunk.push_line(1);
    assert_eq!(chunk.lines.len(), 1);
}

#[test]
fn test_disassemble_chunk() {
    let mut chunk = Chunk::new();
    let constant = Constant::Number(1.0f64.to_bits());
    let index = chunk.push_constant(constant);
    chunk.write_to_chunk(OpCode::Constant(index), 1);
    let listings = chunk.disassemble_chunk();
    assert_eq!(listings.len(), 1);
    assert_eq!(listings[0].offset, 0);
    assert_eq!(listings[0].line, 1);
    assert_eq!(listings[0].name, "Constant");
    assert_eq!(listings[0].operand, Some(0));
}

#[test]
fn test_disassemble_instruction() {
    let mut chunk = Chunk::new();
    let constant = Constant::Number(1.0f64.to_bits());
    let index = chunk.push_constant(constant);
    chunk.write_to_chunk(OpCode::Constant(index), 1);
    let listing = chunk.disassemble_instruction(0);
    assert_eq!(
        text(&listing.render()),
        "OP CODE:Constant - Line number 1 - Constant pool index:0 and the value:number"
    );
}

#[test]
fn test_constant_instruction() {
    let mut chunk = Chunk::new();
    let constant = Constant::Number(1.0f64.to_bits());
    let index = chunk.push_constant(constant);
    chunk.write_to_chunk(OpCode::Constant(index), 1);
    assert_eq!(text(&chunk.constant_instruction(index)), "number");
    assert_eq!(1, chunk.len());
}

#[test]
fn test_return_instruction() {
    let mut chunk = Chunk::new();
    let code_return = OpCode::Return;
    chunk.push_instruction(code_return);
    assert_eq!(1, chunk.len());
}

#[test]
fn test_false_instruction() {
    let mut chunk = Chunk::new();
    let code_false = OpCode::False;
    chunk.push_instruction(code_false);
    assert_eq!(1, chunk.len());
}

#[test]
fn test_true_instruction() {
    let mut chunk = Chunk::new();
    let code_true = OpCode::True;
    chunk.push_instruction(code_true);
    assert_eq!(1, chunk.len());
}

#[test]
fn test_nil_instruction() {
    let mut chunk = Chunk::new();
    let code_nil = OpCode::Nil;
    chunk.push_instruction(code_nil);
    assert_eq!(1, chunk.len());
}

#[test]
fn insturction_return() {
    let mut chunk = Chunk::new();
    let code_return = OpCode::Return;
    chunk.push_instruction(code_return);
    assert_eq!(1, chunk.len());
}

#[test]
fn listing_shows_each_kind_of_constant() {
    let mut chunk = Chunk::new();
    let numeral = chunk.push_constant(Constant::Numeral(b"12.5".to_vec()));
    let name = chunk.push_constant(Constant::Text(b"answer".to_vec()));
    let function = chunk.push_constant(Constant::Function(Rc::new(ObjFunction::new(b"inner".to_vec()))));
    chunk.write_to_chunk(OpCode::Constant(numeral), 3);
    chunk.write_to_chunk(OpCode::DefineGlobal(name), 3);
    chunk.write_to_chunk(OpCode::Closure(function), 4);
    chunk.write_to_chunk(OpCode::GetLocal(2), 5);
    chunk.write_to_chunk(OpCode::Return, 17);
    let lines: Vec<String> = chunk.disassemble_chunk().iter().map(|l| text(&l.render())).collect();
    assert_eq!(
        lines,
        vec![
            "OP CODE:Constant - Line number 3 - Constant pool index:0 and the value:12.5",
            "OP CODE:Define Global - Line number 3 - Constant pool index:1 and the value:answer",
            "OP CODE:Closure - Line number 4 - Constant pool index:2 and the value:inner",
            "OP CODE:Get Local - Line number 5 - Constant pool index:2",
            "OP CODE:Return - Line number 17",
        ]
    );
}

#[test]
fn patch_replaces_one_instruction() {
    let mut chunk = Chunk::new();
    chunk.write_to_chunk(OpCode::Jump(0), 1);
    chunk.write_to_chunk(OpCode::Pop, 1);
    chunk.patch(0, OpCode::Jump(1));
    assert_eq!(chunk.code, vec![OpCode::Jump(1), OpCode::Pop]);
    assert_eq!(chunk.lines, vec![1, 1]);
}

#[test]
fn op_code_label_and_operand() {
    assert_eq!(OpCode::Add.label(), "add operation");
    assert_eq!(OpCode::GetLocal(3).label(), "define local variable in stack from index");
    assert_eq!(OpCode::JumpIfFalse(7).operand(), Some(7));
    assert_eq!(OpCode::Constant(9).operand(), Some(9));
    assert_eq!(OpCode::Return.operand(), None);
    assert_eq!(OpCode::JumpIfFalse(7).mnemonic(), "Jump If False");
}
