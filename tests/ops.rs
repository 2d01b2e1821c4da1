use dialect_ir::builtin_attributes;
use dialect_ir::context::Context;
use dialect_ir::dialect::QualifiedId;
use dialect_ir::llvm_attributes::{self, IntegerOverflowFlagsAttr};
use dialect_ir::llvm_ops::ReturnOp;
use dialect_ir::op_interfaces::{BinArithOp, IntBinArithOp, IntBinArithOpWithOverflowFlag, PointerTypeResult};
use dialect_ir::operation::{Operation, Value};
use dialect_ir::result::{ErrorCause, ErrorKind};
use dialect_ir::types::{IntegerType, PointerType, Signedness};

#[test]
fn binary_arithmetic_checks() {
    let mut ctx = Context::new();
    builtin_attributes::register(&mut ctx);
    let i32_ty = IntegerType::get(&mut ctx, 32, Signedness::Signless);
    let si32 = IntegerType::get(&mut ctx, 32, Signedness::Signed);
    let lhs = Value::Argument { index: 0, ty: i32_ty };
    let rhs = Value::Argument { index: 1, ty: i32_ty };
    let mut op = BinArithOp::new(QualifiedId::new("llvm", "add"), lhs, rhs);
    assert!(BinArithOp::verify(&op).is_ok());
    assert!(IntBinArithOp::verify(&op, &ctx).is_ok());

    let e = IntBinArithOpWithOverflowFlag::verify(&op).err().unwrap();
    assert!(matches!(e.err, ErrorCause::IntBinArithOpWithOverflowFlag(_)));
    assert!(e.disp().ends_with("IntegerOverflowFlag missing on Op"));
    IntBinArithOpWithOverflowFlag::set_integer_overflow_flag(&mut op, IntegerOverflowFlagsAttr::Nuw);
    assert!(IntBinArithOpWithOverflowFlag::verify(&op).is_ok());
    assert_eq!(IntBinArithOpWithOverflowFlag::integer_overflow_flag(&op), IntegerOverflowFlagsAttr::Nuw);

    let signed = BinArithOp::new(QualifiedId::new("llvm", "add"), Value::Argument { index: 0, ty: si32 }, rhs);
    let e = IntBinArithOp::verify(&signed, &ctx).err().unwrap();
    assert_eq!(e.kind, ErrorKind::VerificationFailed);
    assert!(e.disp().ends_with("Integer binary arithmetic Op can only have signless integer result/operand type"));

    let lone = Operation::new(QualifiedId::new("llvm", "add"), vec![i32_ty], vec![lhs]);
    let e = BinArithOp::verify(&lone).err().unwrap();
    assert!(e.disp().ends_with("Binary Arithmetic Op must have exactly two operands and one result"));
}

#[test]
fn pointer_result_checks() {
    let mut ctx = Context::new();
    builtin_attributes::register(&mut ctx);
    llvm_attributes::register(&mut ctx);
    let i8_ty = IntegerType::get(&mut ctx, 8, Signedness::Signless);
    let ptr = PointerType::get(&mut ctx, i8_ty);
    let alloca = Operation::new(QualifiedId::new("llvm", "alloca"), vec![ptr], vec![]);
    assert!(PointerTypeResult::verify(&alloca, &ctx).is_ok());
    assert_eq!(PointerTypeResult::result_pointee_type(&alloca, &ctx), i8_ty);
    let not_ptr = Operation::new(QualifiedId::new("llvm", "alloca"), vec![i8_ty], vec![]);
    let e = PointerTypeResult::verify(&not_ptr, &ctx).err().unwrap();
    assert!(e.disp().ends_with("Result must be a pointer type, but is not"));
}

#[test]
fn return_op_prints_its_operand() {
    let mut ctx = Context::new();
    builtin_attributes::register(&mut ctx);
    let i8_ty = IntegerType::get(&mut ctx, 8, Signedness::Signless);
    let r = ReturnOp::new_unlinked(Value::OpResult { op: 3, index: 0, ty: i8_ty });
    assert_eq!(r.disp(), "llvm.return %op3_0");
    assert!(r.verify(&ctx).is_ok());
    assert_eq!(r.get_operation().get_num_operands(), 1);
}
